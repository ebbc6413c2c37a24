use vstd::prelude::*;

use crate::context::{spec_extend, spec_get, spec_get_column, Context};
use crate::error::{ValidateError, ValidateErrorV};
use crate::expr::{expr_views, lemma_expr_views, Expr, ExprT, ExprTV, ExprV};
use crate::key::key_text;
use crate::meta::{spec_expr_dot, ExprMeta, ExprMetaV};
use crate::rel::{
    clone_columns, spec_rel_dot, Rel, RelT, RelTV, RelV, TableMeta, TableMetaV,
};

verus! {

/// The columns that expressions over `t` can name.
pub open spec fn columns_of(t: RelTV) -> Seq<(Seq<Seq<char>>, ExprMetaV)> {
    match t.board {
        Ok(m) => m.columns,
        Err(_) => Seq::empty(),
    }
}

/// The annotation of a column, looked up among `cols`.
pub open spec fn column_board(cols: Seq<(Seq<Seq<char>>, ExprMetaV)>, k: Seq<Seq<char>>) -> Result<
    ExprMetaV,
    ValidateErrorV,
> {
    match spec_get_column(cols, k) {
        Ok(m) => Ok(m),
        Err(ce) => Err(ce.column_error()),
    }
}

/// The expression `e` with every annotation computed afresh, its columns
/// resolved among `cols`.
pub open spec fn spec_rebase_expr(cols: Seq<(Seq<Seq<char>>, ExprMetaV)>, e: ExprTV) -> ExprTV
    decreases e,
{
    let root = match e.root {
        ExprV::Column(k) => ExprV::Column(k),
        ExprV::Literal(l) => ExprV::Literal(l),
        ExprV::As { expr, alias } => ExprV::As { expr: Box::new(spec_rebase_expr(cols, *expr)), alias },
        ExprV::Function { name, args, distinct } => ExprV::Function {
            name,
            args: rebase_exprs(cols, args),
            distinct,
        },
        ExprV::IsNull(x) => ExprV::IsNull(Box::new(spec_rebase_expr(cols, *x))),
        ExprV::IsNotNull(x) => ExprV::IsNotNull(Box::new(spec_rebase_expr(cols, *x))),
        ExprV::InList { expr, list, negated } => ExprV::InList {
            expr: Box::new(spec_rebase_expr(cols, *expr)),
            list: rebase_exprs(cols, list),
            negated,
        },
        ExprV::Between { expr, low, high, negated } => ExprV::Between {
            expr: Box::new(spec_rebase_expr(cols, *expr)),
            low: Box::new(spec_rebase_expr(cols, *low)),
            high: Box::new(spec_rebase_expr(cols, *high)),
            negated,
        },
        ExprV::UnaryOp { op, expr } => ExprV::UnaryOp { op, expr: Box::new(spec_rebase_expr(cols, *expr)) },
        ExprV::BinaryOp { left, op, right } => ExprV::BinaryOp {
            left: Box::new(spec_rebase_expr(cols, *left)),
            op,
            right: Box::new(spec_rebase_expr(cols, *right)),
        },
        ExprV::Case { conditions, results, else_result } => ExprV::Case {
            conditions: rebase_exprs(cols, conditions),
            results: rebase_exprs(cols, results),
            else_result: match else_result {
                Some(x) => Some(Box::new(spec_rebase_expr(cols, *x))),
                None => None,
            },
        },
        ExprV::Hash { algo, expr, salt } => ExprV::Hash {
            algo,
            expr: Box::new(spec_rebase_expr(cols, *expr)),
            salt,
        },
        ExprV::Replace { expr, pattern, with } => ExprV::Replace {
            expr: Box::new(spec_rebase_expr(cols, *expr)),
            pattern: Box::new(spec_rebase_expr(cols, *pattern)),
            with: Box::new(spec_rebase_expr(cols, *with)),
        },
        ExprV::Noisy { expr, distribution } => ExprV::Noisy {
            expr: Box::new(spec_rebase_expr(cols, *expr)),
            distribution,
        },
    };
    ExprTV {
        root,
        board: match e.root {
            ExprV::Column(k) => column_board(cols, k),
            _ => spec_expr_dot(root),
        },
    }
}

pub open spec fn rebase_exprs(cols: Seq<(Seq<Seq<char>>, ExprMetaV)>, s: Seq<ExprTV>) -> Seq<ExprTV>
    decreases s,
{
    if s.len() == 0 {
        Seq::empty()
    } else {
        rebase_exprs(cols, s.drop_last()).push(spec_rebase_expr(cols, s.last()))
    }
}

/// The annotation of the table `k` as the schema gives it; the table is its
/// own single source.
pub open spec fn leaf_board(schema: Seq<(Seq<Seq<char>>, TableMetaV)>, k: Seq<Seq<char>>) -> Result<
    TableMetaV,
    ValidateErrorV,
> {
    match spec_get(schema, k) {
        Ok(m) => Ok(TableMetaV { provenance: Some(k), ..m }),
        Err(_) => Err(ValidateErrorV::Expected("a table named "@ + key_text(k))),
    }
}

/// The relation `t` with every annotation computed afresh from the schema.
pub open spec fn spec_rebase(schema: Seq<(Seq<Seq<char>>, TableMetaV)>, t: RelTV) -> RelTV
    decreases t,
{
    let root = match t.root {
        RelV::Table(k) => RelV::Table(k),
        RelV::WithAlias { from, alias } => RelV::WithAlias {
            from: Box::new(spec_rebase(schema, *from)),
            alias,
        },
        RelV::Projection { attributes, from } => {
            let f = spec_rebase(schema, *from);
            RelV::Projection { attributes: rebase_exprs(columns_of(f), attributes), from: Box::new(f) }
        },
        RelV::Aggregation { attributes, group_by, from } => {
            let f = spec_rebase(schema, *from);
            RelV::Aggregation {
                attributes: rebase_exprs(columns_of(f), attributes),
                group_by: rebase_exprs(columns_of(f), group_by),
                from: Box::new(f),
            }
        },
        RelV::Selection { from, where_ } => {
            let f = spec_rebase(schema, *from);
            RelV::Selection {
                from: Box::new(f),
                where_: Box::new(spec_rebase_expr(columns_of(f), *where_)),
            }
        },
        RelV::Offset { from, n } => RelV::Offset { from: Box::new(spec_rebase(schema, *from)), n },
        RelV::Limit { from, n } => RelV::Limit { from: Box::new(spec_rebase(schema, *from)), n },
        RelV::OrderBy { from, keys } => {
            let f = spec_rebase(schema, *from);
            RelV::OrderBy { from: Box::new(f), keys: rebase_exprs(columns_of(f), keys) }
        },
        RelV::Distinct { from } => RelV::Distinct { from: Box::new(spec_rebase(schema, *from)) },
        RelV::Join { left, right, kind, on } => {
            let l = spec_rebase(schema, *left);
            let r = spec_rebase(schema, *right);
            RelV::Join {
                left: Box::new(l),
                right: Box::new(r),
                kind,
                on: match on {
                    Some(x) => Some(
                        Box::new(spec_rebase_expr(spec_extend(columns_of(l), columns_of(r)), *x)),
                    ),
                    None => None,
                },
            }
        },
        RelV::SetOperation { left, right, op } => RelV::SetOperation {
            left: Box::new(spec_rebase(schema, *left)),
            right: Box::new(spec_rebase(schema, *right)),
            op,
        },
    };
    RelTV {
        root,
        board: match t.root {
            RelV::Table(k) => leaf_board(schema, k),
            _ => spec_rel_dot(root),
        },
    }
}

fn box_rebase_expr(cols: &Context<ExprMeta>, b: &Box<ExprT>) -> (r: Box<ExprT>)
    ensures
        r@ == spec_rebase_expr(cols@, b@),
    decreases b, 1int,
{
    Box::new(rebase_expr(cols, &**b))
}

/// Each expression of `v` rebased.
pub fn rebase_all(cols: &Context<ExprMeta>, v: &Vec<ExprT>) -> (r: Vec<ExprT>)
    ensures
        expr_views(r@) == rebase_exprs(cols@, expr_views(v@)),
    decreases v, 1int,
{
    proof {
        lemma_expr_views(v@);
    }
    let ghost vs = expr_views(v@);
    let mut out: Vec<ExprT> = Vec::new();
    let mut i: usize = 0;
    proof {
        assert(vs.subrange(0, 0) =~= Seq::<ExprTV>::empty());
        assert(expr_views(out@) =~= Seq::<ExprTV>::empty());
    }
    while i < v.len()
        invariant
            vs == expr_views(v@),
            vs.len() == v@.len(),
            forall|q: int| 0 <= q < v@.len() ==> #[trigger] vs[q] == v@[q]@,
            i <= v@.len(),
            expr_views(out@) == rebase_exprs(cols@, vs.subrange(0, i as int)),
        decreases v@.len() - i,
    {
        proof {
            assert(decreases_to!(v => v[i as int]));
            let s = vs.subrange(0, i + 1);
            assert(s.drop_last() =~= vs.subrange(0, i as int));
        }
        let e = rebase_expr(cols, &v[i]);
        let ghost before = out@;
        out.push(e);
        proof {
            assert(out@.drop_last() =~= before);
        }
        i += 1;
    }
    proof {
        assert(vs.subrange(0, vs.len() as int) =~= vs);
    }
    out
}

/// The expression `e` with every annotation computed afresh, its columns
/// looked up among `cols`.
pub fn rebase_expr(cols: &Context<ExprMeta>, e: &ExprT) -> (r: ExprT)
    ensures
        r@ == spec_rebase_expr(cols@, e@),
    decreases e, 0int,
{
    proof {
        assert(decreases_to!(e => e.root));
    }
    if let Expr::Column(k) = &e.root {
        let board = match cols.get_column(k) {
            Ok(m) => Ok(m.clone()),
            Err(ce) => Err(ce.into_column_error()),
        };
        return ExprT { root: Expr::Column(k.clone()), board };
    }
    let root = match &e.root {
        Expr::Column(k) => Expr::Column(k.clone()),
        Expr::Literal(l) => Expr::Literal(l.clone()),
        Expr::As { expr, alias } => Expr::As { expr: box_rebase_expr(cols, expr), alias: alias.clone() },
        Expr::Function { name, args, distinct } => {
            proof {
                assert(decreases_to!(e.root => e.root->args));
            }
            Expr::Function { name: *name, args: rebase_all(cols, args), distinct: *distinct }
        },
        Expr::IsNull(x) => Expr::IsNull(box_rebase_expr(cols, x)),
        Expr::IsNotNull(x) => Expr::IsNotNull(box_rebase_expr(cols, x)),
        Expr::InList { expr, list, negated } => {
            proof {
                assert(decreases_to!(e.root => e.root->list));
            }
            Expr::InList {
                expr: box_rebase_expr(cols, expr),
                list: rebase_all(cols, list),
                negated: *negated,
            }
        },
        Expr::Between { expr, low, high, negated } => Expr::Between {
            expr: box_rebase_expr(cols, expr),
            low: box_rebase_expr(cols, low),
            high: box_rebase_expr(cols, high),
            negated: *negated,
        },
        Expr::UnaryOp { op, expr } => Expr::UnaryOp { op: *op, expr: box_rebase_expr(cols, expr) },
        Expr::BinaryOp { left, op, right } => Expr::BinaryOp {
            left: box_rebase_expr(cols, left),
            op: *op,
            right: box_rebase_expr(cols, right),
        },
        Expr::Case { conditions, results, else_result } => {
            proof {
                assert(decreases_to!(e.root => e.root->conditions));
                assert(decreases_to!(e.root => e.root->results));
            }
            let x = match else_result {
                Some(x) => Some(box_rebase_expr(cols, x)),
                None => None,
            };
            Expr::Case {
                conditions: rebase_all(cols, conditions),
                results: rebase_all(cols, results),
                else_result: x,
            }
        },
        Expr::Hash { algo, expr, salt } => Expr::Hash {
            algo: *algo,
            expr: box_rebase_expr(cols, expr),
            salt: salt.clone(),
        },
        Expr::Replace { expr, pattern, with } => Expr::Replace {
            expr: box_rebase_expr(cols, expr),
            pattern: box_rebase_expr(cols, pattern),
            with: box_rebase_expr(cols, with),
        },
        Expr::Noisy { expr, distribution } => Expr::Noisy {
            expr: box_rebase_expr(cols, expr),
            distribution: *distribution,
        },
    };
    let r = ExprT::lift(root);
    assert(r@ =~= spec_rebase_expr(cols@, e@));
    r
}

fn columns_or_none(t: &RelT) -> (r: Context<ExprMeta>)
    ensures
        r@ == columns_of(t@),
{
    match &t.board {
        Ok(m) => clone_columns(&m.columns),
        Err(_) => Context::new(),
    }
}

fn box_rebase(schema: &Context<TableMeta>, b: &Box<RelT>) -> (r: Box<RelT>)
    ensures
        r@ == spec_rebase(schema@, b@),
    decreases b, 1int,
{
    Box::new(rebase(schema, &**b))
}

/// The relation `t` with every annotation computed afresh: tables take their
/// annotation from `schema`, everything above is folded again.
pub fn rebase(schema: &Context<TableMeta>, t: &RelT) -> (r: RelT)
    ensures
        r@ == spec_rebase(schema@, t@),
    decreases t, 0int,
{
    proof {
        assert(decreases_to!(t => t.root));
    }
    if let Rel::Table(k) = &t.root {
        let board = match schema.get(k) {
            Ok(m) => Ok(
                TableMeta {
                    columns: clone_columns(&m.columns),
                    audience: crate::meta::clone_keys(&m.audience),
                    provenance: Some(k.clone()),
                },
            ),
            Err(_) => Err(
                ValidateError::Expected(String::from_str("a table named ").concat(k.to_string().as_str())),
            ),
        };
        let r = RelT { root: Rel::Table(k.clone()), board };
        assert(r@ =~= spec_rebase(schema@, t@));
        return r;
    }
    let root = match &t.root {
        Rel::Table(k) => Rel::Table(k.clone()),
        Rel::WithAlias { from, alias } => Rel::WithAlias {
            from: box_rebase(schema, from),
            alias: alias.clone(),
        },
        Rel::Projection { attributes, from } => {
            let f = box_rebase(schema, from);
            let cols = columns_or_none(&f);
            Rel::Projection { attributes: rebase_all(&cols, attributes), from: f }
        },
        Rel::Aggregation { attributes, group_by, from } => {
            let f = box_rebase(schema, from);
            let cols = columns_or_none(&f);
            Rel::Aggregation {
                attributes: rebase_all(&cols, attributes),
                group_by: rebase_all(&cols, group_by),
                from: f,
            }
        },
        Rel::Selection { from, where_ } => {
            let f = box_rebase(schema, from);
            let cols = columns_or_none(&f);
            let w = Box::new(rebase_expr(&cols, where_));
            Rel::Selection { from: f, where_: w }
        },
        Rel::Offset { from, n } => Rel::Offset { from: box_rebase(schema, from), n: *n },
        Rel::Limit { from, n } => Rel::Limit { from: box_rebase(schema, from), n: *n },
        Rel::OrderBy { from, keys } => {
            let f = box_rebase(schema, from);
            let cols = columns_or_none(&f);
            Rel::OrderBy { keys: rebase_all(&cols, keys), from: f }
        },
        Rel::Distinct { from } => Rel::Distinct { from: box_rebase(schema, from) },
        Rel::Join { left, right, kind, on } => {
            let l = box_rebase(schema, left);
            let r = box_rebase(schema, right);
            let on2 = match on {
                Some(x) => {
                    let mut cols = columns_or_none(&l);
                    cols.extend(columns_or_none(&r));
                    Some(Box::new(rebase_expr(&cols, x)))
                },
                None => None,
            };
            Rel::Join { left: l, right: r, kind: *kind, on: on2 }
        },
        Rel::SetOperation { left, right, op } => Rel::SetOperation {
            left: box_rebase(schema, left),
            right: box_rebase(schema, right),
            op: *op,
        },
    };
    let r = RelT::lift(root);
    assert(r@ =~= spec_rebase(schema@, t@));
    r
}

} // verus!
