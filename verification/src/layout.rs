//! The layout of a struct from its fields: the bit fields are checked to
//! complete whole bytes, each field's type and attributes give its encoding,
//! and then each field is checked against its position.
use vstd::prelude::*;
use crate::resolve::{FieldAttrs, FieldTypeError, TypeDesc, determine_field_type, spec_field_type};
use crate::schema::{FieldKind, Schema};
use crate::validate::{
    BitsAttr, CompletenessError, FieldError, completeness_from, field_errors_from,
    validate_byte_completeness, validate_fields, widths_from,
};

verus! {

/// Why a struct gets no layout.
#[derive(Clone, Copy, Debug, PartialEq, Eq)]
pub enum StructError {
    /// The `#[bits]` widths add up to more than a `usize` holds.
    BitsOverflow,
    /// The bit fields do not complete whole bytes.
    Completeness(CompletenessError),
    /// The type and attributes of field `index` give no encoding.
    FieldType { index: usize, error: FieldTypeError },
    /// The first field that cannot stand where it stands.
    Field(FieldError),
}

/// The encodings of the fields from the `i`-th on, after `acc` for those
/// before, or the error of the first field that has none.
pub open spec fn kinds_from(
    fields: Seq<(TypeDesc, FieldAttrs)>,
    i: nat,
    acc: Seq<FieldKind>,
) -> Result<Seq<FieldKind>, StructError>
    decreases fields.len() - i,
{
    if i >= fields.len() {
        Ok(acc)
    } else {
        match spec_field_type(fields[i as int].0, fields[i as int].1) {
            Ok(k) => kinds_from(fields, i + 1, acc.push(k)),
            Err(e) => Err(StructError::FieldType { index: i as usize, error: e }),
        }
    }
}

/// The fields of the layout of a struct, given the `#[bits]` attribute of
/// each field (if any) and each field's type and attributes: first the
/// widths must fit in a `usize` and complete whole bytes, then every field
/// must have an encoding, then no field may stand where it cannot.
pub open spec fn spec_struct_schema(
    bits: Seq<Option<BitsAttr>>,
    fields: Seq<(TypeDesc, FieldAttrs)>,
) -> Result<Seq<FieldKind>, StructError> {
    if widths_from(bits, 0) > usize::MAX {
        Err(StructError::BitsOverflow)
    } else {
        match completeness_from(bits, 0, 0, false) {
            Err(e) => Err(StructError::Completeness(e)),
            Ok(_) => match kinds_from(fields, 0, Seq::empty()) {
                Err(e) => Err(e),
                Ok(ks) => if field_errors_from(ks, 0).len() > 0 {
                    Err(StructError::Field(field_errors_from(ks, 0)[0]))
                } else {
                    Ok(ks)
                },
            },
        }
    }
}

/// Whether the `#[bits]` widths add up to at most `usize::MAX`.
fn widths_fit(bits: &Vec<Option<BitsAttr>>) -> (r: bool)
    ensures
        r == (widths_from(bits@, 0) <= usize::MAX),
{
    let n = bits.len();
    let mut total: usize = 0;
    let mut i: usize = 0;
    while i < n
        invariant
            i <= n,
            n == bits@.len(),
            total + widths_from(bits@, i as nat) == widths_from(bits@, 0),
        decreases n - i,
    {
        match bits[i] {
            Some(BitsAttr::Width(w)) => {
                if w > usize::MAX - total {
                    return false;
                }
                total = total + w;
            },
            _ => {},
        }
        i = i + 1;
    }
    true
}

/// The layout of a struct, given the `#[bits]` attribute of each field (if
/// any) and each field's type and attributes.
pub fn struct_schema(bits: &Vec<Option<BitsAttr>>, fields: Vec<(TypeDesc, FieldAttrs)>) -> (r: Result<
    Schema,
    StructError,
>)
    ensures
        match r {
            Ok(s) => spec_struct_schema(bits@, fields@) == Ok::<Seq<FieldKind>, StructError>(
                s.fields@,
            ),
            Err(e) => spec_struct_schema(bits@, fields@) == Err::<Seq<FieldKind>, StructError>(e),
        },
{
    if !widths_fit(bits) {
        return Err(StructError::BitsOverflow);
    }
    match validate_byte_completeness(bits) {
        Err(e) => return Err(StructError::Completeness(e)),
        Ok(()) => {},
    }
    let ghost all = fields@;
    let n = fields.len();
    let mut rest = fields;
    let mut kinds: Vec<FieldKind> = Vec::new();
    let mut i: usize = 0;
    while i < n
        invariant
            i <= n,
            n == all.len(),
            rest@ == all.subrange(i as int, n as int),
            all == fields@,
            kinds_from(all, 0, Seq::empty()) == kinds_from(all, i as nat, kinds@),
            widths_from(bits@, 0) <= usize::MAX,
            completeness_from(bits@, 0, 0, false) is Ok,
        decreases n - i,
    {
        let (t, a) = rest.remove(0);
        assert(all[i as int] == (t, a));
        match determine_field_type(t, a) {
            Ok(k) => {
                kinds.push(k);
            },
            Err(e) => {
                assert(spec_field_type(all[i as int].0, all[i as int].1) == Err::<FieldKind, FieldTypeError>(e));
                assert(kinds_from(all, i as nat, kinds@) == Err::<Seq<FieldKind>, StructError>(
                    StructError::FieldType { index: i, error: e },
                ));
                return Err(StructError::FieldType { index: i, error: e });
            },
        }
        assert(rest@ =~= all.subrange(i + 1, n as int));
        i = i + 1;
    }
    let s = Schema { fields: kinds };
    let errs = validate_fields(&s);
    if errs.len() > 0 {
        return Err(StructError::Field(errs[0]));
    }
    Ok(s)
}

} // verus!
