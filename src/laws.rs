use vstd::prelude::*;

use crate::expr::{ExprTV, ExprV};
use crate::meta::ExprMetaV;
use crate::rebase::{columns_of, rebase_exprs, spec_rebase, spec_rebase_expr};
use crate::rel::{RelTV, RelV, TableMetaV};
use crate::context::first_index;
use crate::key::ContextKey;
use crate::policy::{PolicyBinding, PolicyBindingV};
use crate::transform::{add_costs, add_one, spec_te, spec_tr, te1, total, tr1};

verus! {

/// Rebasing an expression twice gives what rebasing it once gives.
pub proof fn rebase_expr_idempotent(cols: Seq<(Seq<Seq<char>>, ExprMetaV)>, e: ExprTV)
    ensures
        spec_rebase_expr(cols, spec_rebase_expr(cols, e)) == spec_rebase_expr(cols, e),
    decreases e,
{
    match e.root {
        ExprV::Column(_) | ExprV::Literal(_) => {},
        ExprV::As { expr, .. } | ExprV::IsNull(expr) | ExprV::IsNotNull(expr) | ExprV::UnaryOp {
            expr,
            ..
        } | ExprV::Hash { expr, .. } | ExprV::Noisy { expr, .. } => {
            rebase_expr_idempotent(cols, *expr);
        },
        ExprV::Function { args, .. } => {
            rebase_exprs_idempotent(cols, args);
        },
        ExprV::InList { expr, list, .. } => {
            rebase_expr_idempotent(cols, *expr);
            rebase_exprs_idempotent(cols, list);
        },
        ExprV::Between { expr, low, high, .. } => {
            rebase_expr_idempotent(cols, *expr);
            rebase_expr_idempotent(cols, *low);
            rebase_expr_idempotent(cols, *high);
        },
        ExprV::BinaryOp { left, right, .. } => {
            rebase_expr_idempotent(cols, *left);
            rebase_expr_idempotent(cols, *right);
        },
        ExprV::Case { conditions, results, else_result } => {
            rebase_exprs_idempotent(cols, conditions);
            rebase_exprs_idempotent(cols, results);
            if let Some(x) = else_result {
                rebase_expr_idempotent(cols, *x);
            }
        },
        ExprV::Replace { expr, pattern, with } => {
            rebase_expr_idempotent(cols, *expr);
            rebase_expr_idempotent(cols, *pattern);
            rebase_expr_idempotent(cols, *with);
        },
    }
}

/// Rebasing a list of expressions twice gives what rebasing it once gives.
pub proof fn rebase_exprs_idempotent(cols: Seq<(Seq<Seq<char>>, ExprMetaV)>, s: Seq<ExprTV>)
    ensures
        rebase_exprs(cols, rebase_exprs(cols, s)) == rebase_exprs(cols, s),
    decreases s,
{
    if s.len() > 0 {
        let u = rebase_exprs(cols, s);
        rebase_exprs_idempotent(cols, s.drop_last());
        rebase_expr_idempotent(cols, s.last());
        assert(u.drop_last() =~= rebase_exprs(cols, s.drop_last()));
        assert(rebase_exprs(cols, u) =~= u);
    }
}

/// Rebasing a relation twice gives what rebasing it once gives: the
/// annotations that rebase computes depend on the shape of the tree alone.
pub proof fn rebase_idempotent(schema: Seq<(Seq<Seq<char>>, TableMetaV)>, t: RelTV)
    ensures
        spec_rebase(schema, spec_rebase(schema, t)) == spec_rebase(schema, t),
    decreases t,
{
    match t.root {
        RelV::Table(_) => {},
        RelV::WithAlias { from, .. } | RelV::Offset { from, .. } | RelV::Limit { from, .. }
        | RelV::Distinct { from } => {
            rebase_idempotent(schema, *from);
        },
        RelV::Projection { attributes, from } => {
            rebase_idempotent(schema, *from);
            rebase_exprs_idempotent(columns_of(spec_rebase(schema, *from)), attributes);
        },
        RelV::Aggregation { attributes, group_by, from } => {
            rebase_idempotent(schema, *from);
            rebase_exprs_idempotent(columns_of(spec_rebase(schema, *from)), attributes);
            rebase_exprs_idempotent(columns_of(spec_rebase(schema, *from)), group_by);
        },
        RelV::Selection { from, where_ } => {
            rebase_idempotent(schema, *from);
            rebase_expr_idempotent(columns_of(spec_rebase(schema, *from)), *where_);
        },
        RelV::OrderBy { from, keys } => {
            rebase_idempotent(schema, *from);
            rebase_exprs_idempotent(columns_of(spec_rebase(schema, *from)), keys);
        },
        RelV::Join { left, right, on, .. } => {
            rebase_idempotent(schema, *left);
            rebase_idempotent(schema, *right);
            if let Some(x) = on {
                rebase_expr_idempotent(
                    crate::context::spec_extend(
                        columns_of(spec_rebase(schema, *left)),
                        columns_of(spec_rebase(schema, *right)),
                    ),
                    *x,
                );
            }
        },
        RelV::SetOperation { left, right, .. } => {
            rebase_idempotent(schema, *left);
            rebase_idempotent(schema, *right);
        },
    }
}

/// Validation is a function of the schema and the tree: two runs on the same
/// inputs agree, errors included.
pub proof fn rebase_deterministic(
    schema: Seq<(Seq<Seq<char>>, TableMetaV)>,
    t: RelTV,
    first: RelTV,
    second: RelTV,
)
    requires
        first == spec_rebase(schema, t),
        second == spec_rebase(schema, t),
    ensures
        first == second,
{
}

proof fn total_update(c: Seq<(Seq<Seq<char>>, u64)>, i: int, kv: (Seq<Seq<char>>, u64))
    requires
        0 <= i < c.len(),
    ensures
        total(c.update(i, kv)) + c[i].1 == total(c) + kv.1,
    decreases c.len(),
{
    if i < c.len() - 1 {
        total_update(c.drop_last(), i, kv);
        assert(c.update(i, kv).drop_last() =~= c.drop_last().update(i, kv));
    } else {
        assert(c.update(i, kv).drop_last() =~= c.drop_last());
    }
}

proof fn total_bounds_entry(c: Seq<(Seq<Seq<char>>, u64)>, i: int)
    requires
        0 <= i < c.len(),
    ensures
        c[i].1 <= total(c),
    decreases c.len(),
{
    if i < c.len() - 1 {
        total_bounds_entry(c.drop_last(), i);
    }
}

/// Adding the costs of `c` to `acc` adds their sum to the sum of `acc`, as
/// long as that sum fits in a `u64`.
pub proof fn cost_additivity(acc: Seq<(Seq<Seq<char>>, u64)>, c: Seq<(Seq<Seq<char>>, u64)>)
    requires
        total(acc) + total(c) <= u64::MAX,
    ensures
        total(add_costs(acc, c)) == total(acc) + total(c),
    decreases c.len(),
{
    if c.len() > 0 {
        cost_additivity(acc, c.drop_last());
        let a = add_costs(acc, c.drop_last());
        let (k, v) = c.last();
        match first_index(a, k) {
            Some(i) => {
                crate::context::lemma_first_index(a, k);
                total_bounds_entry(a, i);
                total_update(a, i, (k, crate::transform::saturate((a[i].1 + v) as nat)));
            },
            None => {
                assert(add_one(a, k, v).drop_last() =~= a);
            },
        }
    }
}

/// Rewriting an expression through its children: counting a rewritten child
/// in adds the child's costs to the node's and raises the node's priority to
/// the higher of the two, as long as the sum fits in a `u64`.
pub proof fn expr_child_cost_and_priority(
    b: Seq<(ContextKey, PolicyBinding)>,
    sel: Seq<usize>,
    aud: Seq<Seq<char>>,
    acc: (Seq<(Seq<Seq<char>>, u64)>, u64),
    c: ExprTV,
)
    requires
        spec_te(b, sel, aud, c) is Ok,
        total(acc.0) + total(spec_te(b, sel, aud, c)->Ok_0.1) <= u64::MAX,
    ensures
        ({
            let t = spec_te(b, sel, aud, c)->Ok_0;
            let (v, a) = te1(b, sel, aud, acc, c)->Ok_0;
            &&& v == t.0
            &&& total(a.0) == total(acc.0) + total(t.1)
            &&& a.1 == if t.2 > acc.1 { t.2 } else { acc.1 }
        }),
{
    let t = spec_te(b, sel, aud, c)->Ok_0;
    cost_additivity(acc.0, t.1);
}

/// Rewriting a relation through its sub-relations: counting a rewritten
/// sub-relation in adds its costs to the node's and raises the node's
/// priority to the higher of the two, as long as the sum fits in a `u64`.
pub proof fn rel_child_cost_and_priority(
    b: Seq<(ContextKey, PolicyBinding)>,
    bv: Seq<(Seq<Seq<char>>, PolicyBindingV)>,
    aud: Seq<Seq<char>>,
    schema: Seq<(Seq<Seq<char>>, TableMetaV)>,
    acc: (Seq<(Seq<Seq<char>>, u64)>, u64),
    c: RelTV,
)
    requires
        spec_tr(b, bv, aud, schema, c) is Ok,
        total(acc.0) + total(spec_tr(b, bv, aud, schema, c)->Ok_0.1) <= u64::MAX,
    ensures
        ({
            let t = spec_tr(b, bv, aud, schema, c)->Ok_0;
            let (v, a) = tr1(b, bv, aud, schema, acc, c)->Ok_0;
            &&& v == t.0
            &&& total(a.0) == total(acc.0) + total(t.1)
            &&& a.1 == if t.2 > acc.1 { t.2 } else { acc.1 }
        }),
{
    let t = spec_tr(b, bv, aud, schema, c)->Ok_0;
    cost_additivity(acc.0, t.1);
}

} // verus!
