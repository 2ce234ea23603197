//! State threaded through the processing of a struct's fields, and the data
//! that a field's attributes give.
use vstd::prelude::*;
use crate::consts::Endianness;
use crate::size_expr::SizeExpression;

verus! {

/// Where the processing of a struct's fields stands.
#[derive(Clone, Copy, Debug)]
pub struct ProcessingContext {
    pub endianness: Endianness,
    /// Bits taken by the fields before.
    pub bit_position: usize,
    /// Whether the field at hand is the struct's last.
    pub is_last_field: bool,
}

impl ProcessingContext {
    /// A context at the start of a struct.
    pub fn new(endianness: Endianness) -> (c: ProcessingContext)
        ensures
            c.endianness == endianness,
            c.bit_position == 0,
            !c.is_last_field,
    {
        ProcessingContext { endianness, bit_position: 0, is_last_field: false }
    }

    /// The same context at another bit position.
    pub fn with_bit_position(self, bit_position: usize) -> (c: ProcessingContext)
        ensures
            c.endianness == self.endianness,
            c.bit_position == bit_position,
            c.is_last_field == self.is_last_field,
    {
        let mut c = self;
        c.bit_position = bit_position;
        c
    }

    /// The same context, for a last field or not.
    pub fn with_last_field(self, is_last_field: bool) -> (c: ProcessingContext)
        ensures
            c.endianness == self.endianness,
            c.bit_position == self.bit_position,
            c.is_last_field == is_last_field,
    {
        let mut c = self;
        c.is_last_field = is_last_field;
        c
    }
}

/// What the attributes of one field say: a fixed size (`#[With(size(N))]`),
/// the path of the field that holds the size (`#[FromField(a.b)]`), a size
/// expression, and whether `#[bits]` is present.
pub struct AttributeData {
    pub size: Option<usize>,
    pub field: Option<Vec<String>>,
    pub size_expression: Option<SizeExpression>,
    pub is_bits_attribute: bool,
}

/// The size given by the last attribute that gives one.
pub open spec fn merged_size(s: Seq<AttributeData>) -> Option<usize>
    decreases s.len(),
{
    if s.len() == 0 {
        None
    } else if s.last().size is Some {
        s.last().size
    } else {
        merged_size(s.drop_last())
    }
}

/// The field path given by the last attribute that gives one.
pub open spec fn merged_field(s: Seq<AttributeData>) -> Option<Vec<String>>
    decreases s.len(),
{
    if s.len() == 0 {
        None
    } else if s.last().field is Some {
        s.last().field
    } else {
        merged_field(s.drop_last())
    }
}

/// The size expression given by the last attribute that gives one.
pub open spec fn merged_expression(s: Seq<AttributeData>) -> Option<SizeExpression>
    decreases s.len(),
{
    if s.len() == 0 {
        None
    } else if s.last().size_expression is Some {
        s.last().size_expression
    } else {
        merged_expression(s.drop_last())
    }
}

/// Whether some attribute is `#[bits]`.
pub open spec fn merged_bits(s: Seq<AttributeData>) -> bool {
    exists|i: int| 0 <= i < s.len() && (#[trigger] s[i]).is_bits_attribute
}

impl AttributeData {
    /// No attribute data.
    pub fn new() -> (a: AttributeData)
        ensures
            a.size is None,
            a.field is None,
            a.size_expression is None,
            !a.is_bits_attribute,
    {
        AttributeData { size: None, field: None, size_expression: None, is_bits_attribute: false }
    }

    pub fn with_size(self, size: usize) -> (a: AttributeData)
        ensures
            a.size == Some(size),
            a.field == self.field,
            a.size_expression == self.size_expression,
            a.is_bits_attribute == self.is_bits_attribute,
    {
        let mut a = self;
        a.size = Some(size);
        a
    }

    pub fn with_field(self, field: Vec<String>) -> (a: AttributeData)
        ensures
            a.size == self.size,
            a.field == Some(field),
            a.size_expression == self.size_expression,
            a.is_bits_attribute == self.is_bits_attribute,
    {
        let mut a = self;
        a.field = Some(field);
        a
    }

    pub fn with_bits_attribute(self) -> (a: AttributeData)
        ensures
            a.size == self.size,
            a.field == self.field,
            a.size_expression == self.size_expression,
            a.is_bits_attribute,
    {
        let mut a = self;
        a.is_bits_attribute = true;
        a
    }

    pub fn with_size_expression(self, size_expr: SizeExpression) -> (a: AttributeData)
        ensures
            a.size == self.size,
            a.field == self.field,
            a.size_expression == Some(size_expr),
            a.is_bits_attribute == self.is_bits_attribute,
    {
        let mut a = self;
        a.size_expression = Some(size_expr);
        a
    }

    /// Merges the data of several attributes: of each optional part the
    /// last one given wins, and `#[bits]` holds where any attribute has it.
    pub fn merge(attrs: Vec<AttributeData>) -> (a: AttributeData)
        ensures
            a.size == merged_size(attrs@),
            a.field == merged_field(attrs@),
            a.size_expression == merged_expression(attrs@),
            a.is_bits_attribute == merged_bits(attrs@),
    {
        let ghost all = attrs@;
        let mut rest = attrs;
        let mut size: Option<usize> = None;
        let mut field: Option<Vec<String>> = None;
        let mut size_expression: Option<SizeExpression> = None;
        let mut bits = false;
        while rest.len() > 0
            invariant
                rest@ == all.subrange(0, rest@.len() as int),
                rest@.len() <= all.len(),
                merged_size(all) == if size is Some {
                    size
                } else {
                    merged_size(rest@)
                },
                merged_field(all) == if field is Some {
                    field
                } else {
                    merged_field(rest@)
                },
                merged_expression(all) == if size_expression is Some {
                    size_expression
                } else {
                    merged_expression(rest@)
                },
                merged_bits(all) == (bits || merged_bits(rest@)),
            decreases rest@.len(),
        {
            let ghost before = rest@;
            let a = rest.pop().unwrap();
            proof {
                assert(before.drop_last() =~= rest@);
                assert(before.last() == a);
                assert(merged_bits(before) == (a.is_bits_attribute || merged_bits(rest@))) by {
                    if a.is_bits_attribute {
                        assert(before[before.len() - 1].is_bits_attribute);
                    }
                    if merged_bits(rest@) {
                        let i = choose|i: int| 0 <= i < rest@.len() && (#[trigger] rest@[i]).is_bits_attribute;
                        assert(before[i] == rest@[i]);
                    }
                    if merged_bits(before) {
                        let i = choose|i: int| 0 <= i < before.len() && (#[trigger] before[i]).is_bits_attribute;
                        if i < rest@.len() {
                            assert(rest@[i] == before[i]);
                        }
                    }
                }
            }
            if size.is_none() {
                size = a.size;
            }
            if field.is_none() {
                field = a.field;
            }
            if size_expression.is_none() {
                size_expression = a.size_expression;
            }
            bits = bits || a.is_bits_attribute;
        }
        proof {
            assert(!merged_bits(rest@));
        }
        AttributeData { size, field, size_expression, is_bits_attribute: bits }
    }
}


/// The successes among `s`, in order.
pub open spec fn successes<T, E>(s: Seq<Result<T, E>>) -> Seq<T>
    decreases s.len(),
{
    if s.len() == 0 {
        Seq::empty()
    } else {
        match s[0] {
            Ok(t) => seq![t] + successes(s.drop_first()),
            Err(_) => successes(s.drop_first()),
        }
    }
}

/// The errors among `s`, in order.
pub open spec fn failures<T, E>(s: Seq<Result<T, E>>) -> Seq<E>
    decreases s.len(),
{
    if s.len() == 0 {
        Seq::empty()
    } else {
        match s[0] {
            Ok(_) => failures(s.drop_first()),
            Err(x) => seq![x] + failures(s.drop_first()),
        }
    }
}

/// Collects results: all successes in order where nothing failed, else all
/// errors in order.
pub fn aggregate_results<T, E>(results: Vec<Result<T, E>>) -> (r: Result<Vec<T>, Vec<E>>)
    ensures
        match r {
            Ok(v) => failures(results@).len() == 0 && v@ == successes(results@),
            Err(es) => failures(results@).len() > 0 && es@ == failures(results@),
        },
{
    let ghost all = results@;
    let mut rest = results;
    let mut oks: Vec<T> = Vec::new();
    let mut errs: Vec<E> = Vec::new();
    while rest.len() > 0
        invariant
            oks@ + successes(rest@) == successes(all),
            errs@ + failures(rest@) == failures(all),
        decreases rest@.len(),
    {
        let ghost before = rest@;
        let item = rest.remove(0);
        proof {
            assert(rest@ =~= before.drop_first());
        }
        match item {
            Ok(t) => {
                let ghost o = oks@;
                oks.push(t);
                proof {
                    assert(oks@ + successes(rest@) =~= o + (seq![t] + successes(rest@)));
                }
            },
            Err(x) => {
                let ghost o = errs@;
                errs.push(x);
                proof {
                    assert(errs@ + failures(rest@) =~= o + (seq![x] + failures(rest@)));
                }
            },
        }
    }
    proof {
        assert(oks@ =~= oks@ + successes(rest@));
        assert(errs@ =~= errs@ + failures(rest@));
    }
    if errs.len() == 0 {
        Ok(oks)
    } else {
        Err(errs)
    }
}

} // verus!
