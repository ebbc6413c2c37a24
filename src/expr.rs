use vstd::prelude::*;

use crate::error::{ValidateError, ValidateErrorV};
use crate::key::ContextKey;
use crate::meta::{ExprMeta, ExprMetaV};

verus! {

pub enum LiteralValue {
    Long(i64),
    /// A decimal number, kept as the text it was written with.
    Double(String),
    Boolean(bool),
    StringLiteral(String),
    Null,
}

pub enum LiteralValueV {
    Long(i64),
    Double(Seq<char>),
    Boolean(bool),
    StringLiteral(Seq<char>),
    Null,
}

impl View for LiteralValue {
    type V = LiteralValueV;

    open spec fn view(&self) -> LiteralValueV {
        match self {
            LiteralValue::Long(n) => LiteralValueV::Long(*n),
            LiteralValue::Double(s) => LiteralValueV::Double(s@),
            LiteralValue::Boolean(b) => LiteralValueV::Boolean(*b),
            LiteralValue::StringLiteral(s) => LiteralValueV::StringLiteral(s@),
            LiteralValue::Null => LiteralValueV::Null,
        }
    }
}

impl Clone for LiteralValue {
    fn clone(&self) -> (r: Self)
        ensures
            r@ == self@,
    {
        match self {
            LiteralValue::Long(n) => LiteralValue::Long(*n),
            LiteralValue::Double(s) => LiteralValue::Double(s.clone()),
            LiteralValue::Boolean(b) => LiteralValue::Boolean(*b),
            LiteralValue::StringLiteral(s) => LiteralValue::StringLiteral(s.clone()),
            LiteralValue::Null => LiteralValue::Null,
        }
    }
}

#[derive(PartialEq, Eq, Structural, Clone, Copy, Debug)]
pub enum FunctionName {
    Count,
    Sum,
    Avg,
    StdDev,
    Max,
    Min,
    Concat,
}

#[derive(PartialEq, Eq, Structural, Clone, Copy, Debug)]
pub enum UnaryOperator {
    Plus,
    Minus,
    Not,
}

#[derive(PartialEq, Eq, Structural, Clone, Copy, Debug)]
pub enum BinaryOperator {
    Plus,
    Minus,
    Multiply,
    Divide,
    Modulus,
    Gt,
    Lt,
    GtEq,
    LtEq,
    Eq,
    NotEq,
    Like,
    NotLike,
    And,
    Or,
}

#[derive(PartialEq, Eq, Structural, Clone, Copy, Debug)]
pub enum HashAlgorithm {
    SHA256,
}

impl HashAlgorithm {
    pub fn default() -> (r: HashAlgorithm)
        ensures
            r == HashAlgorithm::SHA256,
    {
        HashAlgorithm::SHA256
    }
}

/// A noise distribution; the variance is the fraction
/// `variance_num / variance_den`.
#[derive(PartialEq, Eq, Structural, Clone, Copy, Debug)]
pub enum Distribution {
    Laplace { mean: i64, variance_num: u64, variance_den: u64 },
}

/// A scalar expression whose children carry their annotations.
#[allow(inconsistent_fields)]
pub enum Expr {
    Column(ContextKey),
    Literal(LiteralValue),
    As { expr: Box<ExprT>, alias: String },
    Function { name: FunctionName, args: Vec<ExprT>, distinct: bool },
    IsNull(Box<ExprT>),
    IsNotNull(Box<ExprT>),
    InList { expr: Box<ExprT>, list: Vec<ExprT>, negated: bool },
    Between { expr: Box<ExprT>, low: Box<ExprT>, high: Box<ExprT>, negated: bool },
    UnaryOp { op: UnaryOperator, expr: Box<ExprT> },
    BinaryOp { left: Box<ExprT>, op: BinaryOperator, right: Box<ExprT> },
    Case { conditions: Vec<ExprT>, results: Vec<ExprT>, else_result: Option<Box<ExprT>> },
    Hash { algo: HashAlgorithm, expr: Box<ExprT>, salt: String },
    Replace { expr: Box<ExprT>, pattern: Box<ExprT>, with: Box<ExprT> },
    Noisy { expr: Box<ExprT>, distribution: Distribution },
}

/// An annotated expression tree: a node and the annotation computed for it.
pub struct ExprT {
    pub root: Expr,
    pub board: Result<ExprMeta, ValidateError>,
}

#[allow(inconsistent_fields)]
pub enum ExprV {
    Column(Seq<Seq<char>>),
    Literal(LiteralValueV),
    As { expr: Box<ExprTV>, alias: Seq<char> },
    Function { name: FunctionName, args: Seq<ExprTV>, distinct: bool },
    IsNull(Box<ExprTV>),
    IsNotNull(Box<ExprTV>),
    InList { expr: Box<ExprTV>, list: Seq<ExprTV>, negated: bool },
    Between { expr: Box<ExprTV>, low: Box<ExprTV>, high: Box<ExprTV>, negated: bool },
    UnaryOp { op: UnaryOperator, expr: Box<ExprTV> },
    BinaryOp { left: Box<ExprTV>, op: BinaryOperator, right: Box<ExprTV> },
    Case { conditions: Seq<ExprTV>, results: Seq<ExprTV>, else_result: Option<Box<ExprTV>> },
    Hash { algo: HashAlgorithm, expr: Box<ExprTV>, salt: Seq<char> },
    Replace { expr: Box<ExprTV>, pattern: Box<ExprTV>, with: Box<ExprTV> },
    Noisy { expr: Box<ExprTV>, distribution: Distribution },
}

pub struct ExprTV {
    pub root: ExprV,
    pub board: Result<ExprMetaV, ValidateErrorV>,
}

pub open spec fn board_view(b: Result<ExprMeta, ValidateError>) -> Result<ExprMetaV, ValidateErrorV> {
    match b {
        Ok(m) => Ok(m@),
        Err(e) => Err(e@),
    }
}

pub open spec fn expr_views(s: Seq<ExprT>) -> Seq<ExprTV>
    decreases s,
{
    if s.len() == 0 {
        Seq::empty()
    } else {
        expr_views(s.drop_last()).push(s.last().view())
    }
}

pub proof fn lemma_expr_views(s: Seq<ExprT>)
    ensures
        expr_views(s).len() == s.len(),
        forall|i: int| 0 <= i < s.len() ==> #[trigger] expr_views(s)[i] == s[i]@,
    decreases s.len(),
{
    if s.len() > 0 {
        lemma_expr_views(s.drop_last());
    }
}

pub proof fn lemma_expr_views_eq(a: Seq<ExprT>, b: Seq<ExprT>)
    requires
        a.len() == b.len(),
        forall|i: int| 0 <= i < a.len() ==> a[i]@ == b[i]@,
    ensures
        expr_views(a) == expr_views(b),
{
    lemma_expr_views(a);
    lemma_expr_views(b);
    assert(expr_views(a) =~= expr_views(b));
}

impl Expr {
    pub open spec fn view(&self) -> ExprV
        decreases self,
    {
        match self {
                Expr::Column(k) => ExprV::Column(k@),
                Expr::Literal(l) => ExprV::Literal(l@),
                Expr::As { expr, alias } => ExprV::As { expr: Box::new(expr.view()), alias: alias@ },
                Expr::Function { name, args, distinct } => ExprV::Function {
                    name: *name,
                    args: expr_views(args@),
                    distinct: *distinct,
                },
                Expr::IsNull(e) => ExprV::IsNull(Box::new(e.view())),
                Expr::IsNotNull(e) => ExprV::IsNotNull(Box::new(e.view())),
                Expr::InList { expr, list, negated } => ExprV::InList {
                    expr: Box::new(expr.view()),
                    list: expr_views(list@),
                    negated: *negated,
                },
                Expr::Between { expr, low, high, negated } => ExprV::Between {
                    expr: Box::new(expr.view()),
                    low: Box::new(low.view()),
                    high: Box::new(high.view()),
                    negated: *negated,
                },
                Expr::UnaryOp { op, expr } => ExprV::UnaryOp { op: *op, expr: Box::new(expr.view()) },
                Expr::BinaryOp { left, op, right } => ExprV::BinaryOp {
                    left: Box::new(left.view()),
                    op: *op,
                    right: Box::new(right.view()),
                },
                Expr::Case { conditions, results, else_result } => ExprV::Case {
                    conditions: expr_views(conditions@),
                    results: expr_views(results@),
                    else_result: match else_result {
                        Some(e) => Some(Box::new(e.view())),
                        None => None,
                    },
                },
                Expr::Hash { algo, expr, salt } => ExprV::Hash {
                    algo: *algo,
                    expr: Box::new(expr.view()),
                    salt: salt@,
                },
                Expr::Replace { expr, pattern, with } => ExprV::Replace {
                    expr: Box::new(expr.view()),
                    pattern: Box::new(pattern.view()),
                    with: Box::new(with.view()),
                },
                Expr::Noisy { expr, distribution } => ExprV::Noisy {
                    expr: Box::new(expr.view()),
                    distribution: *distribution,
                },
        }
    }
}

impl ExprT {
    pub open spec fn view(&self) -> ExprTV
        decreases self,
    {
        ExprTV { root: self.root.view(), board: board_view(self.board) }
    }
}

pub fn clone_board(b: &Result<ExprMeta, ValidateError>) -> (r: Result<ExprMeta, ValidateError>)
    ensures
        board_view(r) == board_view(*b),
{
    match b {
        Ok(m) => Ok(m.clone()),
        Err(e) => Err(e.clone()),
    }
}

/// A copy of each expression of `v`.
pub fn clone_exprs(v: &Vec<ExprT>) -> (r: Vec<ExprT>)
    ensures
        r@.len() == v@.len(),
        forall|i: int| 0 <= i < v@.len() ==> r@[i]@ == v@[i]@,
        expr_views(r@) == expr_views(v@),
    decreases v, 1int,
{
    let mut out: Vec<ExprT> = Vec::new();
    let mut i: usize = 0;
    while i < v.len()
        invariant
            i <= v@.len(),
            out@.len() == i,
            forall|j: int| 0 <= j < i ==> out@[j]@ == v@[j]@,
        decreases v@.len() - i,
    {
        proof {
            assert(decreases_to!(v => v[i as int]));
        }
        out.push(v[i].clone());
        i += 1;
    }
    proof {
        lemma_expr_views_eq(out@, v@);
    }
    out
}

fn clone_box(b: &Box<ExprT>) -> (r: Box<ExprT>)
    ensures
        r@ == b@,
    decreases b, 1int,
{
    Box::new((**b).clone())
}

impl Clone for ExprT {
    fn clone(&self) -> (r: Self)
        ensures
            r@ == self@,
        decreases self, 0int,
    {
        proof {
            assert(decreases_to!(self => self.root));
        }
        let root = match &self.root {
            Expr::Column(k) => Expr::Column(k.clone()),
            Expr::Literal(l) => Expr::Literal(l.clone()),
            Expr::As { expr, alias } => Expr::As { expr: clone_box(expr), alias: alias.clone() },
            Expr::Function { name, args, distinct } => {
                proof {
                    assert(decreases_to!(self.root => self.root->args));
                }
                Expr::Function { name: *name, args: clone_exprs(args), distinct: *distinct }
            },
            Expr::IsNull(e) => Expr::IsNull(clone_box(e)),
            Expr::IsNotNull(e) => Expr::IsNotNull(clone_box(e)),
            Expr::InList { expr, list, negated } => {
                proof {
                    assert(decreases_to!(self.root => self.root->list));
                }
                Expr::InList { expr: clone_box(expr), list: clone_exprs(list), negated: *negated }
            },
            Expr::Between { expr, low, high, negated } => Expr::Between {
                expr: clone_box(expr),
                low: clone_box(low),
                high: clone_box(high),
                negated: *negated,
            },
            Expr::UnaryOp { op, expr } => Expr::UnaryOp { op: *op, expr: clone_box(expr) },
            Expr::BinaryOp { left, op, right } => Expr::BinaryOp {
                left: clone_box(left),
                op: *op,
                right: clone_box(right),
            },
            Expr::Case { conditions, results, else_result } => {
                proof {
                    assert(decreases_to!(self.root => self.root->conditions));
                    assert(decreases_to!(self.root => self.root->results));
                }
                let e = match else_result {
                    Some(e) => Some(clone_box(e)),
                    None => None,
                };
                Expr::Case {
                    conditions: clone_exprs(conditions),
                    results: clone_exprs(results),
                    else_result: e,
                }
            },
            Expr::Hash { algo, expr, salt } => Expr::Hash {
                algo: *algo,
                expr: clone_box(expr),
                salt: salt.clone(),
            },
            Expr::Replace { expr, pattern, with } => Expr::Replace {
                expr: clone_box(expr),
                pattern: clone_box(pattern),
                with: clone_box(with),
            },
            Expr::Noisy { expr, distribution } => Expr::Noisy {
                expr: clone_box(expr),
                distribution: *distribution,
            },
        };
        ExprT { root, board: clone_board(&self.board) }
    }
}

} // verus!
