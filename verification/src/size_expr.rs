//! Size expressions: arithmetic over earlier fields that gives the number of
//! bytes of a vector or string field, as in `#[With(size(count * 4))]`.
use vstd::prelude::*;
use crate::value::{Value, ValueView, lookup, lookup_path, view_values};

verus! {

/// A path to an earlier field: the index of a field of the struct, then the
/// index of a field within it for each nested struct, as `header.length`.
#[derive(Debug, PartialEq, Eq)]
pub struct FieldPath {
    pub segments: Vec<usize>,
}

/// Binary operators of size expressions.
#[derive(Clone, Copy, Debug, PartialEq, Eq, Structural)]
pub enum BinaryOperator {
    Add,
    Subtract,
    Multiply,
    Divide,
    Modulo,
}

/// Comparison operators of conditions.
#[derive(Clone, Copy, Debug, PartialEq, Eq, Structural)]
pub enum ComparisonOperator {
    Equal,
    NotEqual,
    LessThan,
    LessThanOrEqual,
    GreaterThan,
    GreaterThanOrEqual,
}

/// `left op right`
#[derive(Debug, PartialEq, Eq)]
pub struct Condition {
    pub left: Box<SizeExpression>,
    pub op: ComparisonOperator,
    pub right: Box<SizeExpression>,
}

/// An expression whose value is a number of bytes.
#[derive(Debug, PartialEq, Eq)]
pub enum SizeExpression {
    Literal(u64),
    FieldRef(FieldPath),
    BinaryOp { left: Box<SizeExpression>, op: BinaryOperator, right: Box<SizeExpression> },
    Conditional {
        condition: Box<Condition>,
        then_expr: Box<SizeExpression>,
        else_expr: Box<SizeExpression>,
    },
}

/// `a op b`, or none where it overflows, goes below zero or divides by zero.
pub open spec fn apply_op(op: BinaryOperator, a: u128, b: u128) -> Option<u128> {
    match op {
        BinaryOperator::Add => if a + b <= u128::MAX {
            Some((a + b) as u128)
        } else {
            None
        },
        BinaryOperator::Subtract => if a >= b {
            Some((a - b) as u128)
        } else {
            None
        },
        BinaryOperator::Multiply => if a * b <= u128::MAX {
            Some((a * b) as u128)
        } else {
            None
        },
        BinaryOperator::Divide => if b != 0 {
            Some(a / b)
        } else {
            None
        },
        BinaryOperator::Modulo => if b != 0 {
            Some(a % b)
        } else {
            None
        },
    }
}

pub open spec fn compare(op: ComparisonOperator, a: u128, b: u128) -> bool {
    match op {
        ComparisonOperator::Equal => a == b,
        ComparisonOperator::NotEqual => a != b,
        ComparisonOperator::LessThan => a < b,
        ComparisonOperator::LessThanOrEqual => a <= b,
        ComparisonOperator::GreaterThan => a > b,
        ComparisonOperator::GreaterThanOrEqual => a >= b,
    }
}

/// The value of a size expression over the earlier fields `env`, or none
/// where a field cannot be found or an operation fails.
pub open spec fn eval(x: SizeExpression, env: Seq<ValueView>) -> Option<u128>
    decreases x,
{
    match x {
        SizeExpression::Literal(n) => Some(n as u128),
        SizeExpression::FieldRef(p) => lookup(env, p.segments@),
        SizeExpression::BinaryOp { left, op, right } => match (eval(*left, env), eval(*right, env)) {
            (Some(a), Some(b)) => apply_op(op, a, b),
            _ => None,
        },
        SizeExpression::Conditional { condition, then_expr, else_expr } => match eval_condition(
            *condition,
            env,
        ) {
            Some(true) => eval(*then_expr, env),
            Some(false) => eval(*else_expr, env),
            None => None,
        },
    }
}

/// The truth of a condition over the earlier fields `env`.
pub open spec fn eval_condition(c: Condition, env: Seq<ValueView>) -> Option<bool>
    decreases c,
{
    match (eval(*c.left, env), eval(*c.right, env)) {
        (Some(a), Some(b)) => Some(compare(c.op, a, b)),
        _ => None,
    }
}

impl BinaryOperator {
    pub open spec fn spec_symbol(self) -> Seq<char> {
        match self {
            BinaryOperator::Add => "+"@,
            BinaryOperator::Subtract => "-"@,
            BinaryOperator::Multiply => "*"@,
            BinaryOperator::Divide => "/"@,
            BinaryOperator::Modulo => "%"@,
        }
    }

    /// How the operator is written.
    pub fn symbol(self) -> (s: &'static str)
        ensures
            s@ == self.spec_symbol(),
    {
        match self {
            BinaryOperator::Add => "+",
            BinaryOperator::Subtract => "-",
            BinaryOperator::Multiply => "*",
            BinaryOperator::Divide => "/",
            BinaryOperator::Modulo => "%",
        }
    }

    /// `a op b`, or none where it overflows, goes below zero or divides by zero.
    pub fn apply(self, a: u128, b: u128) -> (r: Option<u128>)
        ensures
            r == apply_op(self, a, b),
    {
        match self {
            BinaryOperator::Add => a.checked_add(b),
            BinaryOperator::Subtract => a.checked_sub(b),
            BinaryOperator::Multiply => a.checked_mul(b),
            BinaryOperator::Divide => if b != 0 {
                Some(a / b)
            } else {
                None
            },
            BinaryOperator::Modulo => if b != 0 {
                Some(a % b)
            } else {
                None
            },
        }
    }
}

impl ComparisonOperator {
    pub open spec fn spec_symbol(self) -> Seq<char> {
        match self {
            ComparisonOperator::Equal => "=="@,
            ComparisonOperator::NotEqual => "!="@,
            ComparisonOperator::LessThan => "<"@,
            ComparisonOperator::LessThanOrEqual => "<="@,
            ComparisonOperator::GreaterThan => ">"@,
            ComparisonOperator::GreaterThanOrEqual => ">="@,
        }
    }

    /// How the operator is written.
    pub fn symbol(self) -> (s: &'static str)
        ensures
            s@ == self.spec_symbol(),
    {
        match self {
            ComparisonOperator::Equal => "==",
            ComparisonOperator::NotEqual => "!=",
            ComparisonOperator::LessThan => "<",
            ComparisonOperator::LessThanOrEqual => "<=",
            ComparisonOperator::GreaterThan => ">",
            ComparisonOperator::GreaterThanOrEqual => ">=",
        }
    }

    pub fn holds(self, a: u128, b: u128) -> (r: bool)
        ensures
            r == compare(self, a, b),
    {
        match self {
            ComparisonOperator::Equal => a == b,
            ComparisonOperator::NotEqual => a != b,
            ComparisonOperator::LessThan => a < b,
            ComparisonOperator::LessThanOrEqual => a <= b,
            ComparisonOperator::GreaterThan => a > b,
            ComparisonOperator::GreaterThanOrEqual => a >= b,
        }
    }
}

impl SizeExpression {
    /// The value of the expression over the earlier fields `env`.
    pub fn evaluate(&self, env: &Vec<Value>) -> (r: Option<u128>)
        ensures
            r == eval(*self, view_values(env@)),
        decreases self,
    {
        match self {
            SizeExpression::Literal(n) => Some(*n as u128),
            SizeExpression::FieldRef(p) => {
                let r = lookup_path(env, &p.segments, 0);
                assert(p.segments@.subrange(0, p.segments@.len() as int) =~= p.segments@);
                r
            },
            SizeExpression::BinaryOp { left, op, right } => {
                let a = left.evaluate(env);
                let b = right.evaluate(env);
                match (a, b) {
                    (Some(a), Some(b)) => op.apply(a, b),
                    _ => None,
                }
            },
            SizeExpression::Conditional { condition, then_expr, else_expr } => {
                match condition.evaluate(env) {
                    Some(true) => then_expr.evaluate(env),
                    Some(false) => else_expr.evaluate(env),
                    None => None,
                }
            },
        }
    }
}

impl Condition {
    /// The truth of the condition over the earlier fields `env`.
    pub fn evaluate(&self, env: &Vec<Value>) -> (r: Option<bool>)
        ensures
            r == eval_condition(*self, view_values(env@)),
        decreases self,
    {
        let a = self.left.evaluate(env);
        let b = self.right.evaluate(env);
        match (a, b) {
            (Some(a), Some(b)) => Some(self.op.holds(a, b)),
            _ => None,
        }
    }
}

/// Each comparison operator is the integer comparison that its symbol
/// denotes, and the six relate as their symbols do: `<` is `>` swapped and
/// the negation of `>=`, `<=` is `>=` swapped and the negation of `>`, `!=`
/// is the negation of `==`.
pub proof fn lemma_compare_meaning(a: u128, b: u128)
    ensures
        compare(ComparisonOperator::Equal, a, b) <==> a == b,
        compare(ComparisonOperator::NotEqual, a, b) <==> a != b,
        compare(ComparisonOperator::LessThan, a, b) <==> a < b,
        compare(ComparisonOperator::LessThanOrEqual, a, b) <==> a <= b,
        compare(ComparisonOperator::GreaterThan, a, b) <==> a > b,
        compare(ComparisonOperator::GreaterThanOrEqual, a, b) <==> a >= b,
        compare(ComparisonOperator::LessThan, a, b) == compare(ComparisonOperator::GreaterThan, b, a),
        compare(ComparisonOperator::LessThan, a, b) == !compare(
            ComparisonOperator::GreaterThanOrEqual,
            a,
            b,
        ),
        compare(ComparisonOperator::LessThanOrEqual, a, b) == compare(
            ComparisonOperator::GreaterThanOrEqual,
            b,
            a,
        ),
        compare(ComparisonOperator::LessThanOrEqual, a, b) == !compare(
            ComparisonOperator::GreaterThan,
            a,
            b,
        ),
        compare(ComparisonOperator::NotEqual, a, b) == !compare(ComparisonOperator::Equal, a, b),
{
}

/// A conditional size whose operands evaluate to `a` and `b` takes its then
/// branch exactly when `a op b` holds for the integers, and its else branch
/// otherwise.
pub proof fn lemma_conditional_branch(
    c: Condition,
    then_expr: SizeExpression,
    else_expr: SizeExpression,
    env: Seq<ValueView>,
    a: u128,
    b: u128,
)
    requires
        eval(*c.left, env) == Some(a),
        eval(*c.right, env) == Some(b),
    ensures
        ({
            let x = SizeExpression::Conditional {
                condition: Box::new(c),
                then_expr: Box::new(then_expr),
                else_expr: Box::new(else_expr),
            };
            &&& c.op is Equal ==> eval(x, env) == if a == b { eval(then_expr, env) } else { eval(else_expr, env) }
            &&& c.op is NotEqual ==> eval(x, env) == if a != b { eval(then_expr, env) } else { eval(else_expr, env) }
            &&& c.op is LessThan ==> eval(x, env) == if a < b { eval(then_expr, env) } else { eval(else_expr, env) }
            &&& c.op is LessThanOrEqual ==> eval(x, env) == if a <= b { eval(then_expr, env) } else { eval(else_expr, env) }
            &&& c.op is GreaterThan ==> eval(x, env) == if a > b { eval(then_expr, env) } else { eval(else_expr, env) }
            &&& c.op is GreaterThanOrEqual ==> eval(x, env) == if a >= b { eval(then_expr, env) } else { eval(else_expr, env) }
        }),
{
    lemma_compare_meaning(a, b);
    let x = SizeExpression::Conditional {
        condition: Box::new(c),
        then_expr: Box::new(then_expr),
        else_expr: Box::new(else_expr),
    };
    assert(eval_condition(c, env) == Some(compare(c.op, a, b)));
    assert(eval(x, env) == if compare(c.op, a, b) {
        eval(then_expr, env)
    } else {
        eval(else_expr, env)
    });
}

/// Each arithmetic operator gives the integer result that its symbol
/// denotes whenever that result is a `u128`, and nothing otherwise: a sum
/// or product that fits, a difference that is not negative, and for a
/// nonzero divisor the quotient `q` and remainder `m` with `q * b + m == a`
/// and `m < b`.
pub proof fn lemma_apply_meaning(a: u128, b: u128)
    ensures
        (apply_op(BinaryOperator::Add, a, b) matches Some(r) && r == a + b) || (apply_op(
            BinaryOperator::Add,
            a,
            b,
        ) is None && a + b > u128::MAX),
        (apply_op(BinaryOperator::Subtract, a, b) matches Some(r) && r + b == a) || (apply_op(
            BinaryOperator::Subtract,
            a,
            b,
        ) is None && a < b),
        (apply_op(BinaryOperator::Multiply, a, b) matches Some(r) && r == a * b) || (apply_op(
            BinaryOperator::Multiply,
            a,
            b,
        ) is None && a * b > u128::MAX),
        b == 0 ==> apply_op(BinaryOperator::Divide, a, b) is None && apply_op(
            BinaryOperator::Modulo,
            a,
            b,
        ) is None,
        b != 0 ==> (apply_op(BinaryOperator::Divide, a, b) matches Some(q) && apply_op(
            BinaryOperator::Modulo,
            a,
            b,
        ) matches Some(m) && q * b + m == a && m < b),
{
    if b != 0 {
        let q = a / b;
        let m = a % b;
        assert(q * b + m == a && m < b) by (nonlinear_arith)
            requires
                b != 0,
                q == a / b,
                m == a % b,
        {
        }
    }
}

/// A binary size expression whose operands evaluate to `a` and `b` has the
/// value of `a op b` as an integer operation, where that is a `u128`.
pub proof fn lemma_binary_value(
    left: SizeExpression,
    op: BinaryOperator,
    right: SizeExpression,
    env: Seq<ValueView>,
    a: u128,
    b: u128,
)
    requires
        eval(left, env) == Some(a),
        eval(right, env) == Some(b),
    ensures
        eval(SizeExpression::BinaryOp { left: Box::new(left), op, right: Box::new(right) }, env)
            == apply_op(op, a, b),
        op is Add && a + b <= u128::MAX ==> eval(
            SizeExpression::BinaryOp { left: Box::new(left), op, right: Box::new(right) },
            env,
        ) == Some((a + b) as u128),
        op is Multiply && a * b <= u128::MAX ==> eval(
            SizeExpression::BinaryOp { left: Box::new(left), op, right: Box::new(right) },
            env,
        ) == Some((a * b) as u128),
        op is Subtract && a >= b ==> eval(
            SizeExpression::BinaryOp { left: Box::new(left), op, right: Box::new(right) },
            env,
        ) == Some((a - b) as u128),
{
    lemma_apply_meaning(a, b);
}

} // verus!
