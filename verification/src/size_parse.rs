//! Reading size expressions from text: `syn` parses the text as a Rust
//! expression, and a verified conversion turns its tree into a
//! [`SizeExpression`], resolving field names against the fields that the
//! struct offers.
use vstd::prelude::*;
use crate::size_expr::{BinaryOperator, ComparisonOperator, Condition, FieldPath, SizeExpression};

verus! {

/// The binary operators of a Rust expression.
#[derive(Clone, Copy, Debug, PartialEq, Eq)]
pub enum BinOpKind {
    Add,
    Sub,
    Mul,
    Div,
    Rem,
    Eq,
    Ne,
    Lt,
    Le,
    Gt,
    Ge,
    /// Any other binary operator.
    Other,
}

/// The parts of a Rust expression that size expressions are made of.
#[derive(Debug, PartialEq, Eq)]
pub enum ExprTree {
    /// An integer literal.
    IntLit(u128),
    /// An integer literal too large for a `u128`.
    BigLit,
    /// A literal that is not an integer.
    OtherLit,
    /// A path such as `count` or `a::b`: the names of its segments.
    Path(Vec<String>),
    /// `base.name`
    Field(Box<ExprTree>, String),
    /// `(inner)`
    Paren(Box<ExprTree>),
    /// `left op right`
    Binary(Box<ExprTree>, BinOpKind, Box<ExprTree>),
    /// `if cond { then } else { else }`: the statements of the then block,
    /// and the else branch, if any.
    If { cond: Box<ExprTree>, then_branch: Vec<StmtTree>, else_expr: Option<Box<ExprTree>> },
    /// A block: its statements.
    Block(Vec<StmtTree>),
    /// `func(args)`
    Call(Box<ExprTree>, Vec<ExprTree>),
    /// Any other expression.
    Unsupported,
}

/// A statement of a block.
#[derive(Debug, PartialEq, Eq)]
pub enum StmtTree {
    /// An expression, with or without a semicolon after it.
    Expr(ExprTree),
    /// Any other statement.
    Other,
}

/// A field that a size expression may name: its path of names, as
/// `header.length`, and its path of positions.
#[derive(Clone, Debug, PartialEq, Eq)]
pub struct PathEntry {
    pub names: Vec<String>,
    pub positions: Vec<usize>,
}

/// Why a size expression was refused.
#[derive(Clone, Copy, Debug, PartialEq, Eq)]
pub enum SizeExprError {
    /// The text is not a Rust expression.
    ParseFailed,
    /// An integer literal does not fit in a `u64`.
    LiteralTooLarge,
    /// A literal that is not an integer.
    NonIntegerLiteral,
    /// A path names no field that the struct offers.
    UnknownField,
    /// A binary operator other than `+ - * / %`.
    UnsupportedOperator,
    /// The condition of an `if` is not a binary expression.
    ExpectedComparison,
    /// The condition of an `if` compares with an operator other than
    /// `== != < <= > >=`.
    UnsupportedComparison,
    /// The then block of an `if` does not start with an expression.
    EmptyThenBranch,
    /// An `if` without an else branch.
    MissingElse,
    /// The else block of an `if` does not start with an expression.
    EmptyElseBranch,
    /// Any other kind of expression.
    UnsupportedExpression,
}

/// The mathematical form of a [`SizeExpression`].
pub enum SizeExprView {
    Literal(u64),
    FieldRef(Seq<usize>),
    BinaryOp(Box<SizeExprView>, BinaryOperator, Box<SizeExprView>),
    Conditional(
        Box<SizeExprView>,
        ComparisonOperator,
        Box<SizeExprView>,
        Box<SizeExprView>,
        Box<SizeExprView>,
    ),
}

pub open spec fn view_expr(x: SizeExpression) -> SizeExprView
    decreases x,
{
    match x {
        SizeExpression::Literal(n) => SizeExprView::Literal(n),
        SizeExpression::FieldRef(p) => SizeExprView::FieldRef(p.segments@),
        SizeExpression::BinaryOp { left, op, right } => SizeExprView::BinaryOp(
            Box::new(view_expr(*left)),
            op,
            Box::new(view_expr(*right)),
        ),
        SizeExpression::Conditional { condition, then_expr, else_expr } => SizeExprView::Conditional(
            Box::new(view_expr(*condition.left)),
            condition.op,
            Box::new(view_expr(*condition.right)),
            Box::new(view_expr(*then_expr)),
            Box::new(view_expr(*else_expr)),
        ),
    }
}

/// The names of a list of strings, as character sequences.
pub open spec fn names_of(ns: Seq<String>) -> Seq<Seq<char>> {
    ns.map_values(|s: String| s@)
}

/// The position of the first entry from the `i`-th on whose names are `names`.
pub open spec fn first_match(scope: Seq<PathEntry>, names: Seq<Seq<char>>, i: nat) -> Option<nat>
    decreases scope.len() - i,
{
    if i >= scope.len() {
        None
    } else if names_of(scope[i as int].names@) == names {
        Some(i)
    } else {
        first_match(scope, names, i + 1)
    }
}

/// The positions of the field named by `names`: those of the first entry of
/// `scope` with these names.
pub open spec fn resolve_spec(scope: Seq<PathEntry>, names: Seq<Seq<char>>) -> Option<Seq<usize>> {
    match first_match(scope, names, 0) {
        Some(i) => Some(scope[i as int].positions@),
        None => None,
    }
}

/// The names of a path or of a chain of field accesses on one.
pub open spec fn path_names(e: ExprTree) -> Option<Seq<Seq<char>>>
    decreases e,
{
    match e {
        ExprTree::Path(ns) => Some(names_of(ns@)),
        ExprTree::Field(base, name) => match path_names(*base) {
            Some(p) => Some(p.push(name@)),
            None => None,
        },
        _ => None,
    }
}

pub open spec fn arith_op(op: BinOpKind) -> Option<BinaryOperator> {
    match op {
        BinOpKind::Add => Some(BinaryOperator::Add),
        BinOpKind::Sub => Some(BinaryOperator::Subtract),
        BinOpKind::Mul => Some(BinaryOperator::Multiply),
        BinOpKind::Div => Some(BinaryOperator::Divide),
        BinOpKind::Rem => Some(BinaryOperator::Modulo),
        _ => None,
    }
}

pub open spec fn compare_op(op: BinOpKind) -> Option<ComparisonOperator> {
    match op {
        BinOpKind::Eq => Some(ComparisonOperator::Equal),
        BinOpKind::Ne => Some(ComparisonOperator::NotEqual),
        BinOpKind::Lt => Some(ComparisonOperator::LessThan),
        BinOpKind::Le => Some(ComparisonOperator::LessThanOrEqual),
        BinOpKind::Gt => Some(ComparisonOperator::GreaterThan),
        BinOpKind::Ge => Some(ComparisonOperator::GreaterThanOrEqual),
        _ => None,
    }
}

/// The size expression that an expression tree denotes, or the first error:
/// operands are converted left to right before their operator is checked,
/// and an `if` converts its condition, then its then branch, then its else
/// branch.
pub open spec fn spec_size_expression(e: ExprTree, scope: Seq<PathEntry>) -> Result<
    SizeExprView,
    SizeExprError,
>
    decreases e, 0nat,
{
    match e {
        ExprTree::IntLit(v) => if v <= u64::MAX {
            Ok(SizeExprView::Literal(v as u64))
        } else {
            Err(SizeExprError::LiteralTooLarge)
        },
        ExprTree::BigLit => Err(SizeExprError::LiteralTooLarge),
        ExprTree::OtherLit => Err(SizeExprError::NonIntegerLiteral),
        ExprTree::Path(_) => field_ref(e, scope),
        ExprTree::Field(_, _) => field_ref(e, scope),
        ExprTree::Paren(inner) => spec_size_expression(*inner, scope),
        ExprTree::Binary(l, op, r) => match spec_size_expression(*l, scope) {
            Err(x) => Err(x),
            Ok(a) => match spec_size_expression(*r, scope) {
                Err(x) => Err(x),
                Ok(b) => match arith_op(op) {
                    Some(o) => Ok(SizeExprView::BinaryOp(Box::new(a), o, Box::new(b))),
                    None => Err(SizeExprError::UnsupportedOperator),
                },
            },
        },
        ExprTree::If { cond, then_branch, else_expr } => match *cond {
            ExprTree::Binary(l, op, r) => match spec_size_expression(*l, scope) {
                Err(x) => Err(x),
                Ok(a) => match spec_size_expression(*r, scope) {
                    Err(x) => Err(x),
                    Ok(b) => match compare_op(op) {
                        None => Err(SizeExprError::UnsupportedComparison),
                        Some(c) => match first_expr(then_branch@) {
                            None => Err(SizeExprError::EmptyThenBranch),
                            Some(t) => match spec_size_expression(t, scope) {
                                Err(x) => Err(x),
                                Ok(tv) => match else_expr {
                                    None => Err(SizeExprError::MissingElse),
                                    Some(x) => match else_branch(*x, scope) {
                                        Err(err) => Err(err),
                                        Ok(ev) => Ok(
                                            SizeExprView::Conditional(
                                                Box::new(a),
                                                c,
                                                Box::new(b),
                                                Box::new(tv),
                                                Box::new(ev),
                                            ),
                                        ),
                                    },
                                },
                            },
                        },
                    },
                },
            },
            _ => Err(SizeExprError::ExpectedComparison),
        },
        ExprTree::Block(_) => Err(SizeExprError::UnsupportedExpression),
        ExprTree::Call(_, _) => Err(SizeExprError::UnsupportedExpression),
        ExprTree::Unsupported => Err(SizeExprError::UnsupportedExpression),
    }
}

/// The expression that a block's statements start with, if they start with
/// one.
pub open spec fn first_expr(stmts: Seq<StmtTree>) -> Option<ExprTree> {
    if stmts.len() > 0 {
        match stmts[0] {
            StmtTree::Expr(x) => Some(x),
            StmtTree::Other => None,
        }
    } else {
        None
    }
}

/// The else branch of an `if`: a block stands for the expression it starts
/// with, and an `else if` for itself.
pub open spec fn else_branch(x: ExprTree, scope: Seq<PathEntry>) -> Result<SizeExprView, SizeExprError>
    decreases x, 1nat,
{
    match x {
        ExprTree::Block(stmts) => match first_expr(stmts@) {
            Some(inner) => spec_size_expression(inner, scope),
            None => Err(SizeExprError::EmptyElseBranch),
        },
        _ => spec_size_expression(x, scope),
    }
}

/// A path, or a chain of field accesses on one, as a field reference.
pub open spec fn field_ref(e: ExprTree, scope: Seq<PathEntry>) -> Result<SizeExprView, SizeExprError> {
    match path_names(e) {
        Some(ns) => match resolve_spec(scope, ns) {
            Some(p) => Ok(SizeExprView::FieldRef(p)),
            None => Err(SizeExprError::UnknownField),
        },
        None => Err(SizeExprError::UnsupportedExpression),
    }
}

#[verifier::external_type_specification]
#[verifier::external_body]
pub struct ExSynExpr(syn::Expr);

#[verifier::external_type_specification]
#[verifier::external_body]
pub struct ExSynBinOp(syn::BinOp);

#[verifier::external_type_specification]
#[verifier::external_body]
pub struct ExSynLit(syn::Lit);

#[verifier::external_type_specification]
#[verifier::external_body]
pub struct ExSynStmt(syn::Stmt);

/// The tree that `syn` parses from `text`, taken as an [`ExprTree`], or none
/// where the text is not an expression.
pub uninterp spec fn spec_parse_expr(text: Seq<char>) -> Option<ExprTree>;

/// Parses `text` with `syn::parse_str::<syn::Expr>` and converts the tree it
/// gives, or gives none where `syn` reports an error. Claimed: the result
/// depends on the text alone (`spec_parse_expr`); nothing more is stated of
/// what `syn` makes of the text.
#[verifier::external_body]
pub fn parse_expr(text: &str) -> (r: Option<ExprTree>)
    ensures
        r == spec_parse_expr(text@),
{
    match syn::parse_str::<syn::Expr>(text) {
        Ok(e) => Some(expr_tree(&e)),
        Err(_) => None,
    }
}

/// Converts a `syn::Expr` that `parse_expr` got, variant by variant; a
/// part of `parse_expr`'s conversion, with nothing claimed of its own.
#[verifier::external_body]
fn expr_tree(e: &syn::Expr) -> ExprTree {
    match e {
        syn::Expr::Lit(l) => lit_tree(&l.lit),
        syn::Expr::Path(p) => ExprTree::Path(p.path.segments.iter().map(|s| s.ident.to_string()).collect()),
        syn::Expr::Field(_) => field_tree(e),
        syn::Expr::Paren(p) => ExprTree::Paren(Box::new(expr_tree(&p.expr))),
        syn::Expr::Binary(b) => {
            ExprTree::Binary(Box::new(expr_tree(&b.left)), op_kind(&b.op), Box::new(expr_tree(&b.right)))
        },
        syn::Expr::If(_) => if_tree(e),
        syn::Expr::Block(_) | syn::Expr::Call(_) => block_or_call_tree(e),
        _ => ExprTree::Unsupported,
    }
}

/// Converts a `syn::Expr::Field`; a part of `parse_expr`'s conversion.
#[verifier::external_body]
fn field_tree(e: &syn::Expr) -> ExprTree {
    match e {
        syn::Expr::Field(f) => match &f.member {
            syn::Member::Named(id) => ExprTree::Field(Box::new(expr_tree(&f.base)), id.to_string()),
            syn::Member::Unnamed(_) => ExprTree::Unsupported,
        },
        _ => ExprTree::Unsupported,
    }
}

/// Converts a `syn::Expr::If`; a part of `parse_expr`'s conversion.
#[verifier::external_body]
fn if_tree(e: &syn::Expr) -> ExprTree {
    match e {
        syn::Expr::If(i) => ExprTree::If {
            cond: Box::new(expr_tree(&i.cond)),
            then_branch: i.then_branch.stmts.iter().map(stmt_tree).collect(),
            else_expr: match &i.else_branch {
                Some((_, x)) => Some(Box::new(expr_tree(x))),
                None => None,
            },
        },
        _ => ExprTree::Unsupported,
    }
}

/// Converts a `syn::Expr::Block` or `syn::Expr::Call`; a part of
/// `parse_expr`'s conversion.
#[verifier::external_body]
fn block_or_call_tree(e: &syn::Expr) -> ExprTree {
    match e {
        syn::Expr::Block(b) => ExprTree::Block(b.block.stmts.iter().map(stmt_tree).collect()),
        syn::Expr::Call(c) => ExprTree::Call(Box::new(expr_tree(&c.func)), c.args.iter().map(expr_tree).collect()),
        _ => ExprTree::Unsupported,
    }
}

/// Converts a `syn::Stmt`; a part of `parse_expr`'s conversion.
#[verifier::external_body]
fn stmt_tree(st: &syn::Stmt) -> StmtTree {
    match st {
        syn::Stmt::Expr(x, _) => StmtTree::Expr(expr_tree(x)),
        _ => StmtTree::Other,
    }
}

/// Converts a `syn::Lit`, reading an integer literal with
/// `syn::LitInt::base10_parse`; a part of `parse_expr`'s conversion.
#[verifier::external_body]
fn lit_tree(l: &syn::Lit) -> ExprTree {
    match l {
        syn::Lit::Int(n) => match n.base10_parse::<u128>() {
            Ok(v) => ExprTree::IntLit(v),
            Err(_) => ExprTree::BigLit,
        },
        _ => ExprTree::OtherLit,
    }
}

/// Converts a `syn::BinOp`; a part of `parse_expr`'s conversion.
#[verifier::external_body]
fn op_kind(op: &syn::BinOp) -> BinOpKind {
    match op {
        syn::BinOp::Add(_) => BinOpKind::Add,
        syn::BinOp::Sub(_) => BinOpKind::Sub,
        syn::BinOp::Mul(_) => BinOpKind::Mul,
        syn::BinOp::Div(_) => BinOpKind::Div,
        syn::BinOp::Rem(_) => BinOpKind::Rem,
        syn::BinOp::Eq(_) => BinOpKind::Eq,
        syn::BinOp::Ne(_) => BinOpKind::Ne,
        syn::BinOp::Lt(_) => BinOpKind::Lt,
        syn::BinOp::Le(_) => BinOpKind::Le,
        syn::BinOp::Gt(_) => BinOpKind::Gt,
        syn::BinOp::Ge(_) => BinOpKind::Ge,
        _ => BinOpKind::Other,
    }
}

/// Whether two strings hold the same characters.
pub fn same_text(a: &str, b: &str) -> (r: bool)
    ensures
        r == (a@ == b@),
{
    let n = a.unicode_len();
    if n != b.unicode_len() {
        return false;
    }
    let mut i: usize = 0;
    while i < n
        invariant
            i <= n,
            n == a@.len(),
            n == b@.len(),
            forall|j: int| 0 <= j < i ==> a@[j] == b@[j],
        decreases n - i,
    {
        if a.get_char(i) != b.get_char(i) {
            return false;
        }
        i = i + 1;
    }
    proof {
        assert(a@ =~= b@);
    }
    true
}

/// Whether two lists of strings hold the same strings.
fn same_names(a: &Vec<String>, b: &Vec<String>) -> (r: bool)
    ensures
        r == (names_of(a@) == names_of(b@)),
{
    if a.len() != b.len() {
        proof {
            assert(names_of(a@).len() != names_of(b@).len());
        }
        return false;
    }
    let mut i: usize = 0;
    while i < a.len()
        invariant
            i <= a@.len(),
            a@.len() == b@.len(),
            forall|j: int| 0 <= j < i ==> a@[j]@ == b@[j]@,
        decreases a@.len() - i,
    {
        if a[i] != b[i] {
            proof {
                assert(names_of(a@)[i as int] != names_of(b@)[i as int]);
            }
            return false;
        }
        i = i + 1;
    }
    proof {
        assert(names_of(a@) =~= names_of(b@));
    }
    true
}

/// The positions of the field named by `names`: those of the first entry of
/// `scope` with these names, if there is one.
pub fn resolve_field_path(names: &Vec<String>, scope: &Vec<PathEntry>) -> (r: Option<Vec<usize>>)
    ensures
        match r {
            Some(p) => resolve_spec(scope@, names_of(names@)) == Some(p@),
            None => resolve_spec(scope@, names_of(names@)) is None,
        },
{
    let mut i: usize = 0;
    while i < scope.len()
        invariant
            i <= scope@.len(),
            first_match(scope@, names_of(names@), 0) == first_match(scope@, names_of(names@), i as nat),
        decreases scope@.len() - i,
    {
        if same_names(&scope[i].names, names) {
            return Some(scope[i].positions.clone());
        }
        i = i + 1;
    }
    None
}

/// The names of a path or of a chain of field accesses on one.
pub(crate) fn path_names_of(e: &ExprTree) -> (r: Option<Vec<String>>)
    ensures
        match r {
            Some(ns) => path_names(*e) == Some(names_of(ns@)),
            None => path_names(*e) is None,
        },
    decreases e,
{
    match e {
        ExprTree::Path(ns) => Some(ns.clone()),
        ExprTree::Field(base, name) => match path_names_of(base) {
            Some(ns) => {
                let mut ns = ns;
                let ghost before = ns@;
                ns.push(name.clone());
                proof {
                    assert(names_of(ns@) =~= names_of(before).push(name@));
                }
                Some(ns)
            },
            None => None,
        },
        _ => None,
    }
}

fn arith_of(op: BinOpKind) -> (r: Option<BinaryOperator>)
    ensures
        r == arith_op(op),
{
    match op {
        BinOpKind::Add => Some(BinaryOperator::Add),
        BinOpKind::Sub => Some(BinaryOperator::Subtract),
        BinOpKind::Mul => Some(BinaryOperator::Multiply),
        BinOpKind::Div => Some(BinaryOperator::Divide),
        BinOpKind::Rem => Some(BinaryOperator::Modulo),
        _ => None,
    }
}

fn compare_of(op: BinOpKind) -> (r: Option<ComparisonOperator>)
    ensures
        r == compare_op(op),
{
    match op {
        BinOpKind::Eq => Some(ComparisonOperator::Equal),
        BinOpKind::Ne => Some(ComparisonOperator::NotEqual),
        BinOpKind::Lt => Some(ComparisonOperator::LessThan),
        BinOpKind::Le => Some(ComparisonOperator::LessThanOrEqual),
        BinOpKind::Gt => Some(ComparisonOperator::GreaterThan),
        BinOpKind::Ge => Some(ComparisonOperator::GreaterThanOrEqual),
        _ => None,
    }
}

/// Converts the else branch of an `if`.
fn else_from(x: &ExprTree, scope: &Vec<PathEntry>) -> (r: Result<SizeExpression, SizeExprError>)
    ensures
        match r {
            Ok(v) => else_branch(*x, scope@) == Ok::<SizeExprView, SizeExprError>(view_expr(v)),
            Err(err) => else_branch(*x, scope@) == Err::<SizeExprView, SizeExprError>(err),
        },
    decreases x, 1nat,
{
    match x {
        ExprTree::Block(stmts) => {
            if stmts.len() > 0 {
                match &stmts[0] {
                    StmtTree::Expr(inner) => size_expression_from(inner, scope),
                    StmtTree::Other => Err(SizeExprError::EmptyElseBranch),
                }
            } else {
                Err(SizeExprError::EmptyElseBranch)
            }
        },
        _ => size_expression_from(x, scope),
    }
}

/// Converts an expression tree into a size expression, resolving the field
/// names it uses against `scope`.
pub fn size_expression_from(e: &ExprTree, scope: &Vec<PathEntry>) -> (r: Result<
    SizeExpression,
    SizeExprError,
>)
    ensures
        match r {
            Ok(x) => spec_size_expression(*e, scope@) == Ok::<SizeExprView, SizeExprError>(
                view_expr(x),
            ),
            Err(err) => spec_size_expression(*e, scope@) == Err::<SizeExprView, SizeExprError>(err),
        },
    decreases e, 0nat,
{
    match e {
        ExprTree::IntLit(v) => if *v <= u64::MAX as u128 {
            Ok(SizeExpression::Literal(*v as u64))
        } else {
            Err(SizeExprError::LiteralTooLarge)
        },
        ExprTree::BigLit => Err(SizeExprError::LiteralTooLarge),
        ExprTree::OtherLit => Err(SizeExprError::NonIntegerLiteral),
        ExprTree::Path(_) | ExprTree::Field(_, _) => match path_names_of(e) {
            Some(ns) => match resolve_field_path(&ns, scope) {
                Some(p) => Ok(SizeExpression::FieldRef(FieldPath { segments: p })),
                None => Err(SizeExprError::UnknownField),
            },
            None => Err(SizeExprError::UnsupportedExpression),
        },
        ExprTree::Paren(inner) => size_expression_from(inner, scope),
        ExprTree::Binary(l, op, r) => {
            let a = match size_expression_from(l, scope) {
                Ok(a) => a,
                Err(x) => return Err(x),
            };
            let b = match size_expression_from(r, scope) {
                Ok(b) => b,
                Err(x) => return Err(x),
            };
            match arith_of(*op) {
                Some(o) => Ok(SizeExpression::BinaryOp { left: Box::new(a), op: o, right: Box::new(b) }),
                None => Err(SizeExprError::UnsupportedOperator),
            }
        },
        ExprTree::If { cond, then_branch, else_expr } => match &**cond {
            ExprTree::Binary(l, op, r) => {
                let a = match size_expression_from(l, scope) {
                    Ok(a) => a,
                    Err(x) => return Err(x),
                };
                let b = match size_expression_from(r, scope) {
                    Ok(b) => b,
                    Err(x) => return Err(x),
                };
                let c = match compare_of(*op) {
                    Some(c) => c,
                    None => return Err(SizeExprError::UnsupportedComparison),
                };
                if then_branch.len() == 0 {
                    return Err(SizeExprError::EmptyThenBranch);
                }
                let t = match &then_branch[0] {
                    StmtTree::Expr(t) => match size_expression_from(t, scope) {
                        Ok(t) => t,
                        Err(x) => return Err(x),
                    },
                    StmtTree::Other => return Err(SizeExprError::EmptyThenBranch),
                };
                let x = match else_expr {
                    Some(x) => match else_from(x, scope) {
                        Ok(x) => x,
                        Err(err) => return Err(err),
                    },
                    None => return Err(SizeExprError::MissingElse),
                };
                Ok(
                    SizeExpression::Conditional {
                        condition: Box::new(Condition { left: Box::new(a), op: c, right: Box::new(b) }),
                        then_expr: Box::new(t),
                        else_expr: Box::new(x),
                    },
                )
            },
            _ => Err(SizeExprError::ExpectedComparison),
        },
        ExprTree::Block(_) => Err(SizeExprError::UnsupportedExpression),
        ExprTree::Call(_, _) => Err(SizeExprError::UnsupportedExpression),
        ExprTree::Unsupported => Err(SizeExprError::UnsupportedExpression),
    }
}

/// Reads a size expression from text: `syn` parses it as a Rust
/// expression, which is then converted with the field names resolved
/// against `scope`.
pub fn parse_size_expression(text: &str, scope: &Vec<PathEntry>) -> (r: Result<
    SizeExpression,
    SizeExprError,
>)
    ensures
        match spec_parse_expr(text@) {
            None => r == Err::<SizeExpression, SizeExprError>(SizeExprError::ParseFailed),
            Some(t) => match r {
                Ok(x) => spec_size_expression(t, scope@) == Ok::<SizeExprView, SizeExprError>(
                    view_expr(x),
                ),
                Err(err) => spec_size_expression(t, scope@) == Err::<SizeExprView, SizeExprError>(
                    err,
                ),
            },
        },
{
    match parse_expr(text) {
        None => Err(SizeExprError::ParseFailed),
        Some(t) => size_expression_from(&t, scope),
    }
}

/// How a digit is written.
pub open spec fn digit_text(d: nat) -> Seq<char> {
    if d == 0 {
        "0"@
    } else if d == 1 {
        "1"@
    } else if d == 2 {
        "2"@
    } else if d == 3 {
        "3"@
    } else if d == 4 {
        "4"@
    } else if d == 5 {
        "5"@
    } else if d == 6 {
        "6"@
    } else if d == 7 {
        "7"@
    } else if d == 8 {
        "8"@
    } else {
        "9"@
    }
}

/// How a number is written in decimal.
pub open spec fn decimal(n: nat) -> Seq<char>
    decreases n,
{
    if n < 10 {
        digit_text(n)
    } else {
        decimal(n / 10) + digit_text(n % 10)
    }
}

/// The names of the first entry of `scope` with the positions `p`.
pub open spec fn names_at(scope: Seq<PathEntry>, p: Seq<usize>, i: nat) -> Option<Seq<Seq<char>>>
    decreases scope.len() - i,
{
    if i >= scope.len() {
        None
    } else if scope[i as int].positions@ == p {
        Some(names_of(scope[i as int].names@))
    } else {
        names_at(scope, p, i + 1)
    }
}

/// The first `n` parts joined by dots.
pub open spec fn dotted(parts: Seq<Seq<char>>, n: nat) -> Seq<char>
    decreases n,
{
    if n == 0 {
        Seq::empty()
    } else if n == 1 {
        parts[0]
    } else {
        dotted(parts, (n - 1) as nat) + "."@ + parts[n - 1]
    }
}

/// How a size expression is written: field references by the names that
/// `scope` gives their positions (by the positions where it gives none),
/// operations in parentheses, and conditionals as `if`.
pub open spec fn render(x: SizeExprView, scope: Seq<PathEntry>) -> Seq<char>
    decreases x,
{
    match x {
        SizeExprView::Literal(n) => decimal(n as nat),
        SizeExprView::FieldRef(p) => match names_at(scope, p, 0) {
            Some(ns) => dotted(ns, ns.len()),
            None => dotted(p.map_values(|k: usize| decimal(k as nat)), p.len()),
        },
        SizeExprView::BinaryOp(l, op, r) => "("@ + render(*l, scope) + " "@ + op.spec_symbol() + " "@
            + render(*r, scope) + ")"@,
        SizeExprView::Conditional(l, c, r, t, e) => "if "@ + render(*l, scope) + " "@ + c.spec_symbol()
            + " "@ + render(*r, scope) + " { "@ + render(*t, scope) + " } else { "@ + render(*e, scope)
            + " }"@,
    }
}

fn digit_str(d: u64) -> (s: &'static str)
    requires
        d < 10,
    ensures
        s@ == digit_text(d as nat),
{
    if d == 0 {
        "0"
    } else if d == 1 {
        "1"
    } else if d == 2 {
        "2"
    } else if d == 3 {
        "3"
    } else if d == 4 {
        "4"
    } else if d == 5 {
        "5"
    } else if d == 6 {
        "6"
    } else if d == 7 {
        "7"
    } else if d == 8 {
        "8"
    } else {
        "9"
    }
}

fn write_decimal(n: u64, out: &mut String)
    ensures
        final(out)@ == old(out)@ + decimal(n as nat),
    decreases n,
{
    if n >= 10 {
        write_decimal(n / 10, out);
    }
    out.append(digit_str(n % 10));
    proof {
        if n >= 10 {
            assert(decimal(n as nat) == decimal((n / 10) as nat) + digit_text((n % 10) as nat));
        }
    }
}

/// The position in `scope` of the first entry with the positions `p`.
fn names_index(scope: &Vec<PathEntry>, p: &Vec<usize>) -> (r: Option<usize>)
    ensures
        match r {
            Some(i) => i < scope@.len() && names_at(scope@, p@, 0) == Some(
                names_of(scope@[i as int].names@),
            ),
            None => names_at(scope@, p@, 0) is None,
        },
{
    let mut i: usize = 0;
    while i < scope.len()
        invariant
            i <= scope@.len(),
            names_at(scope@, p@, 0) == names_at(scope@, p@, i as nat),
        decreases scope@.len() - i,
    {
        let q = &scope[i].positions;
        let mut same = q.len() == p.len();
        let mut j: usize = 0;
        while same && j < q.len()
            invariant
                j <= q@.len(),
                same ==> q@.len() == p@.len(),
                same ==> forall|k: int| 0 <= k < j ==> q@[k] == p@[k],
                !same ==> q@ != p@,
            decreases q@.len() - j,
        {
            if q[j] != p[j] {
                same = false;
            }
            j = j + 1;
        }
        if same {
            assert(q@ =~= p@);
            return Some(i);
        }
        i = i + 1;
    }
    None
}

fn write_names(names: &Vec<String>, out: &mut String)
    ensures
        final(out)@ == old(out)@ + dotted(names_of(names@), names@.len()),
{
    let ghost start = out@;
    let ghost parts = names_of(names@);
    let mut i: usize = 0;
    while i < names.len()
        invariant
            i <= names@.len(),
            parts == names_of(names@),
            out@ == start + dotted(parts, i as nat),
        decreases names@.len() - i,
    {
        if i > 0 {
            out.append(".");
        }
        out.append(names[i].as_str());
        proof {
            if i == 0 {
                assert(dotted(parts, 1) == parts[0]);
            }
            assert(out@ =~= start + dotted(parts, (i + 1) as nat));
        }
        i = i + 1;
    }
}

fn write_positions(p: &Vec<usize>, out: &mut String)
    ensures
        final(out)@ == old(out)@ + dotted(p@.map_values(|k: usize| decimal(k as nat)), p@.len()),
{
    let ghost start = out@;
    let ghost parts = p@.map_values(|k: usize| decimal(k as nat));
    let mut i: usize = 0;
    while i < p.len()
        invariant
            i <= p@.len(),
            parts == p@.map_values(|k: usize| decimal(k as nat)),
            out@ == start + dotted(parts, i as nat),
        decreases p@.len() - i,
    {
        if i > 0 {
            out.append(".");
        }
        write_decimal(p[i] as u64, out);
        proof {
            assert(parts[i as int] == decimal(p@[i as int] as nat));
            if i == 0 {
                assert(dotted(parts, 1) == parts[0]);
            }
            assert(out@ =~= start + dotted(parts, (i + 1) as nat));
        }
        i = i + 1;
    }
}

fn write_expr(x: &SizeExpression, scope: &Vec<PathEntry>, out: &mut String)
    ensures
        final(out)@ == old(out)@ + render(view_expr(*x), scope@),
    decreases x,
{
    let ghost start = out@;
    match x {
        SizeExpression::Literal(n) => write_decimal(*n, out),
        SizeExpression::FieldRef(p) => match names_index(scope, &p.segments) {
            Some(i) => write_names(&scope[i].names, out),
            None => write_positions(&p.segments, out),
        },
        SizeExpression::BinaryOp { left, op, right } => {
            out.append("(");
            write_expr(left, scope, out);
            out.append(" ");
            out.append(op.symbol());
            out.append(" ");
            write_expr(right, scope, out);
            out.append(")");
            proof {
                assert(out@ =~= start + render(view_expr(*x), scope@));
            }
        },
        SizeExpression::Conditional { condition, then_expr, else_expr } => {
            out.append("if ");
            write_expr(&condition.left, scope, out);
            out.append(" ");
            out.append(condition.op.symbol());
            out.append(" ");
            write_expr(&condition.right, scope, out);
            out.append(" { ");
            write_expr(then_expr, scope, out);
            out.append(" } else { ");
            write_expr(else_expr, scope, out);
            out.append(" }");
            proof {
                assert(out@ =~= start + render(view_expr(*x), scope@));
            }
        },
    }
}

impl SizeExpression {
    /// How the expression is written, naming fields by the paths that
    /// `scope` gives their positions.
    pub fn to_string(&self, scope: &Vec<PathEntry>) -> (s: String)
        ensures
            s@ == render(view_expr(*self), scope@),
    {
        let mut out = String::new();
        write_expr(self, scope, &mut out);
        assert(out@ =~= render(view_expr(*self), scope@));
        out
    }
}

} // verus!
