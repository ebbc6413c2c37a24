use vstd::prelude::*;

use crate::context::{spec_get, spec_get_column, Context};
use crate::expr::{
    clone_exprs, expr_views, lemma_expr_views, BinaryOperator, Distribution, Expr, ExprT, ExprTV,
    ExprV, FunctionName, LiteralValue, LiteralValueV,
};
use crate::key::{key_name, positional_alias, positional_name, ContextKey};
use crate::laws::rebase_idempotent;
use crate::meta::{contains_key, keys_view};
use crate::rebase::spec_rebase;
use crate::policy::{
    lifted, AggregationPolicy, Costly, DifferentialPrivacyPolicy, Error, ErrorV, Policy,
};
use crate::rebase::rebase;
use crate::error::ValidateErrorV;
use crate::rel::{spec_rel_dot, Rel, RelT, RelTV, RelV, TableMeta, TableMetaV};

verus! {

/// How many of the attributes are function calls.
pub open spec fn n_functions(s: Seq<ExprTV>) -> nat
    decreases s.len(),
{
    if s.len() == 0 {
        0
    } else {
        n_functions(s.drop_last()) + if s.last().root is Function {
            1nat
        } else {
            0nat
        }
    }
}

fn column(k: ContextKey) -> (r: ExprT)
    ensures
        r@ == lifted(ExprV::Column(k@)),
{
    ExprT::lift(Expr::Column(k))
}

fn alias_of(expr: ExprT, alias: String) -> (r: ExprT)
    ensures
        r@ == lifted(ExprV::As { expr: Box::new(expr@), alias: alias@ }),
{
    ExprT::lift(Expr::As { expr: Box::new(expr), alias })
}

fn in_keys(keys: &Vec<ContextKey>, k: &ContextKey) -> (r: bool)
    ensures
        r == keys_view(keys@).contains(k@),
{
    contains_key(keys, k)
}

/// The rewrite, rebased, is its own rebase: its annotations are consistent.
fn rebased(schema: &Context<TableMeta>, t: &RelT) -> (r: RelT)
    ensures
        r@ == spec_rebase(schema@, t@),
        r@ == spec_rebase(schema@, r@),
{
    let r = rebase(schema, t);
    proof {
        rebase_idempotent(schema@, t@);
    }
    r
}

/// The tree `root` annotated from its children.
pub open spec fn rel_lifted(root: RelV) -> RelTV {
    RelTV { root, board: spec_rel_dot(root) }
}

/// The group-by entries, up to `n`, are bare untainted columns of known
/// frequency; `fg` holds their rebased annotations.
pub open spec fn group_check(gb: Seq<ExprTV>, fg: Seq<ExprTV>, n: nat) -> Result<(), ErrorV>
    decreases n,
{
    if n == 0 || n > gb.len() || n > fg.len() {
        Ok(())
    } else {
        match group_check(gb, fg, (n - 1) as nat) {
            Err(e) => Err(e),
            Ok(_) => if !(gb[n - 1].root is Column) {
                Err(ErrorV::NoMatch)
            } else {
                match fg[n - 1].board {
                    Err(x) => Err(ErrorV::Validate(x)),
                    Ok(m) => if (m.max_frequency is None) || m.taint {
                        Err(ErrorV::NoMatch)
                    } else {
                        Ok(())
                    },
                }
            },
        }
    }
}

/// The keys of the group-by columns.
pub open spec fn group_keys(gb: Seq<ExprTV>) -> Seq<Seq<Seq<char>>> {
    gb.map_values(|e: ExprTV| e.root->Column_0)
}

/// The most rows that one entity has, read from the rebased source.
pub open spec fn primary_frequency(entity: Seq<char>, ff: RelTV) -> Result<u64, ErrorV> {
    match ff.board {
        Err(x) => Err(ErrorV::Validate(x)),
        Ok(fm) => match spec_get_column(fm.columns, seq![entity]) {
            Ok(m) => match m.max_frequency {
                Some(f) => Ok(f),
                None => Err(ErrorV::NoMatch),
            },
            Err(_) => Err(ErrorV::NoMatch),
        },
    }
}

/// The noised attributes, the attributes kept at the end, and the cost, for
/// the first `n` attributes: a grouped column is kept under its name, an
/// aggregate of known sensitivity `s` is noised with Laplace(0, s/epsilon)
/// under the name `f{i}_` and spends epsilon.
pub open spec fn noise_attrs(
    epsilon: u64,
    gb: Seq<ExprTV>,
    attrs: Seq<ExprTV>,
    fa: Seq<ExprTV>,
    n: nat,
) -> Result<(Seq<ExprTV>, Seq<ExprTV>, u64), ErrorV>
    decreases n,
{
    if n == 0 || n > attrs.len() || n > fa.len() {
        Ok((Seq::empty(), Seq::empty(), 0u64))
    } else {
        match noise_attrs(epsilon, gb, attrs, fa, (n - 1) as nat) {
            Err(x) => Err(x),
            Ok((na, pa, cost)) => {
                let i = n - 1;
                let e = attrs[i];
                match e.root {
                    ExprV::Column(k) => if !group_keys(gb).contains(k) {
                        Err(ErrorV::NoMatch)
                    } else {
                        Ok(
                            (
                                na.push(lifted(ExprV::As { expr: Box::new(e), alias: key_name(k) })),
                                pa.push(e),
                                cost,
                            ),
                        )
                    },
                    ExprV::Function { .. } => match fa[i].board {
                        Err(x) => Err(ErrorV::Validate(x)),
                        Ok(m) => match m.sensitivity {
                            None => Err(ErrorV::NoMatch),
                            Some(s) => if cost + epsilon > u64::MAX {
                                Err(ErrorV::NoMatch)
                            } else {
                                let alias = positional_name(i as nat);
                                let noisy = lifted(
                                    ExprV::Noisy {
                                        expr: Box::new(e),
                                        distribution: Distribution::Laplace {
                                            mean: 0,
                                            variance_num: s,
                                            variance_den: epsilon,
                                        },
                                    },
                                );
                                Ok(
                                    (
                                        na.push(lifted(ExprV::As { expr: Box::new(noisy), alias })),
                                        pa.push(lifted(ExprV::Column(seq![alias]))),
                                        (cost + epsilon) as u64,
                                    ),
                                )
                            },
                        },
                    },
                    _ => Err(ErrorV::NoMatch),
                }
            },
        }
    }
}

/// The noised count of rows of each group, named `__bucket_count`.
pub open spec fn bucket_count(epsilon: u64) -> ExprTV {
    let one = lifted(ExprV::Literal(LiteralValueV::Long(1)));
    let count = lifted(
        ExprV::Function { name: FunctionName::Count, args: seq![one], distinct: false },
    );
    let noisy = lifted(
        ExprV::Noisy {
            expr: Box::new(count),
            distribution: Distribution::Laplace { mean: 0, variance_num: 1, variance_den: epsilon },
        },
    );
    lifted(ExprV::As { expr: Box::new(noisy), alias: "__bucket_count"@ })
}

/// `Projection(pa, Selection(Aggregation(na + [bucket count], gb, from),
/// __bucket_count > threshold))`, before the final rebase.
pub open spec fn dp_tree(
    epsilon: u64,
    na: Seq<ExprTV>,
    pa: Seq<ExprTV>,
    gb: Seq<ExprTV>,
    from: RelTV,
    threshold: i64,
) -> RelTV {
    let noised = rel_lifted(
        RelV::Aggregation {
            attributes: na.push(bucket_count(epsilon)),
            group_by: gb,
            from: Box::new(from),
        },
    );
    let where_ = lifted(
        ExprV::BinaryOp {
            left: Box::new(lifted(ExprV::Column(seq!["__bucket_count"@]))),
            op: BinaryOperator::Gt,
            right: Box::new(lifted(ExprV::Literal(LiteralValueV::Long(threshold)))),
        },
    );
    let selection = rel_lifted(RelV::Selection { from: Box::new(noised), where_: Box::new(where_) });
    rel_lifted(RelV::Projection { attributes: pa, from: Box::new(selection) })
}

/// What the differential-privacy policy gives for `rel`: the rebased
/// rewrite and its cost, `NoMatch` where a required statistic is missing,
/// or the failed annotation it met.
pub open spec fn spec_dp(
    p: DifferentialPrivacyPolicy,
    rel: RelTV,
    schema: Seq<(Seq<Seq<char>>, TableMetaV)>,
) -> Result<(RelTV, u64), ErrorV> {
    match rel.root {
        RelV::Aggregation { attributes, group_by, from } => if p.epsilon == 0 {
            Err(ErrorV::NoMatch)
        } else {
            let flex = spec_rebase(schema, rel);
            if flex.board is Err {
                Err(ErrorV::NoMatch)
            } else {
                match flex.root {
                    RelV::Aggregation { attributes: fa, group_by: fg, from: ff } => if fa.len()
                        != attributes.len() || fg.len() != group_by.len() {
                        Err(ErrorV::NoMatch)
                    } else {
                        match group_check(group_by, fg, group_by.len()) {
                            Err(x) => Err(x),
                            Ok(_) => match primary_frequency(p.entity@, *ff) {
                                Err(x) => Err(x),
                                Ok(f) => if p.bucket_size * f > i64::MAX {
                                    Err(ErrorV::NoMatch)
                                } else {
                                    match noise_attrs(
                                        p.epsilon,
                                        group_by,
                                        attributes,
                                        fa,
                                        attributes.len(),
                                    ) {
                                        Err(x) => Err(x),
                                        Ok((na, pa, cost)) => Ok(
                                            (
                                                spec_rebase(
                                                    schema,
                                                    dp_tree(
                                                        p.epsilon,
                                                        na,
                                                        pa,
                                                        group_by,
                                                        *from,
                                                        (p.bucket_size * f) as i64,
                                                    ),
                                                ),
                                                cost,
                                            ),
                                        ),
                                    }
                                },
                            },
                        }
                    },
                    _ => Err(ErrorV::NoMatch),
                }
            }
        },
        _ => Err(ErrorV::NoMatch),
    }
}

proof fn group_check_err(gb: Seq<ExprTV>, fg: Seq<ExprTV>, n: nat, m: nat)
    requires
        n <= m <= gb.len(),
        m <= fg.len(),
        group_check(gb, fg, n) is Err,
    ensures
        group_check(gb, fg, m) == group_check(gb, fg, n),
    decreases m - n,
{
    if m > n {
        group_check_err(gb, fg, n, (m - 1) as nat);
    }
}

proof fn noise_attrs_err(epsilon: u64, gb: Seq<ExprTV>, attrs: Seq<ExprTV>, fa: Seq<ExprTV>, n: nat, m: nat)
    requires
        n <= m <= attrs.len(),
        m <= fa.len(),
        noise_attrs(epsilon, gb, attrs, fa, n) is Err,
    ensures
        noise_attrs(epsilon, gb, attrs, fa, m) == noise_attrs(epsilon, gb, attrs, fa, n),
    decreases m - n,
{
    if m > n {
        noise_attrs_err(epsilon, gb, attrs, fa, n, (m - 1) as nat);
    }
}

proof fn noise_attrs_cost(epsilon: u64, gb: Seq<ExprTV>, attrs: Seq<ExprTV>, fa: Seq<ExprTV>, n: nat)
    requires
        n <= attrs.len(),
        n <= fa.len(),
        noise_attrs(epsilon, gb, attrs, fa, n) is Ok,
    ensures
        noise_attrs(epsilon, gb, attrs, fa, n)->Ok_0.2 == epsilon * n_functions(attrs.subrange(0, n as int)),
    decreases n,
{
    if n > 0 {
        noise_attrs_cost(epsilon, gb, attrs, fa, (n - 1) as nat);
        let s = attrs.subrange(0, n as int);
        assert(s.drop_last() =~= attrs.subrange(0, n - 1));
        assert(s.last() == attrs[n - 1]);
        let k = n_functions(attrs.subrange(0, n - 1));
        assert(epsilon * (k + 1) == epsilon * k + epsilon) by (nonlinear_arith);
        let prev = noise_attrs(epsilon, gb, attrs, fa, (n - 1) as nat);
        let cur = noise_attrs(epsilon, gb, attrs, fa, n);
        assert(prev is Ok);
        if attrs[n - 1].root is Function {
            assert(n_functions(s) == k + 1);
            assert(cur->Ok_0.2 == prev->Ok_0.2 + epsilon);
        } else {
            assert(n_functions(s) == k);
            assert(cur->Ok_0.2 == prev->Ok_0.2);
        }
        assert(cur->Ok_0.2 == epsilon * n_functions(s));
    } else {
        assert(attrs.subrange(0, 0) =~= Seq::<ExprTV>::empty());
        assert(n_functions(attrs.subrange(0, 0)) == 0);
        assert(epsilon * 0 == 0);
    }
}

/// The keys of the group-by columns, when each is a bare untainted column
/// of known frequency.
fn check_group_by(group_by: &Vec<ExprT>, flex_group_by: &Vec<ExprT>) -> (r: Result<Vec<ContextKey>, Error>)
    requires
        flex_group_by@.len() == group_by@.len(),
    ensures
        match (r, group_check(expr_views(group_by@), expr_views(flex_group_by@), group_by@.len())) {
            (Ok(k), Ok(_)) => keys_view(k@) == group_keys(expr_views(group_by@)),
            (Err(e), Err(x)) => e@ == x,
            _ => false,
        },
{
    let ghost gb = expr_views(group_by@);
    let ghost fg = expr_views(flex_group_by@);
    proof {
        lemma_expr_views(group_by@);
        lemma_expr_views(flex_group_by@);
    }
    let mut grouping_keys: Vec<ContextKey> = Vec::new();
    let mut g: usize = 0;
    assert(gb.subrange(0, 0) =~= Seq::<ExprTV>::empty());
    assert(keys_view(grouping_keys@) =~= group_keys(gb.subrange(0, 0)));
    while g < group_by.len()
        invariant
            gb == expr_views(group_by@),
            fg == expr_views(flex_group_by@),
            gb.len() == group_by@.len(),
            fg.len() == gb.len(),
            flex_group_by@.len() == group_by@.len(),
            forall|q: int| 0 <= q < group_by@.len() ==> #[trigger] gb[q] == group_by@[q]@,
            forall|q: int| 0 <= q < flex_group_by@.len() ==> #[trigger] fg[q] == flex_group_by@[q]@,
            g <= group_by@.len(),
            group_check(gb, fg, g as nat) == Ok::<(), ErrorV>(()),
            keys_view(grouping_keys@) == group_keys(gb.subrange(0, g as int)),
        decreases group_by@.len() - g,
    {
        match &group_by[g].root {
            Expr::Column(k) => {
                assert(gb[g as int].root == ExprV::Column(k@));
                let ghost before = grouping_keys@;
                grouping_keys.push(k.clone());
                assert(keys_view(grouping_keys@) =~= keys_view(before).push(k@));
                assert(group_keys(gb.subrange(0, g + 1)) =~= group_keys(gb.subrange(0, g as int)).push(k@));
            },
            _ => {
                proof {
                    group_check_err(gb, fg, (g + 1) as nat, gb.len());
                }
                return Err(Error::NoMatch);
            },
        }
        match &flex_group_by[g].board {
            Err(e) => {
                proof {
                    group_check_err(gb, fg, (g + 1) as nat, gb.len());
                }
                return Err(Error::Validate(e.clone()));
            },
            Ok(m) => {
                if m.max_frequency.is_none() || m.taint.0 {
                    proof {
                        group_check_err(gb, fg, (g + 1) as nat, gb.len());
                    }
                    return Err(Error::NoMatch);
                }
            },
        }
        g += 1;
    }
    assert(gb.subrange(0, gb.len() as int) =~= gb);
    Ok(grouping_keys)
}

/// The noised attributes, the attributes kept at the end, and the cost.
fn noise_all(
    epsilon: u64,
    attributes: &Vec<ExprT>,
    flex_attributes: &Vec<ExprT>,
    grouping_keys: &Vec<ContextKey>,
    Ghost(gb): Ghost<Seq<ExprTV>>,
) -> (r: Result<(Vec<ExprT>, Vec<ExprT>, u64), Error>)
    requires
        epsilon != 0,
        flex_attributes@.len() == attributes@.len(),
        keys_view(grouping_keys@) == group_keys(gb),
    ensures
        match (r, noise_attrs(epsilon, gb, expr_views(attributes@), expr_views(flex_attributes@), attributes@.len())) {
            (Ok((na, pa, c)), Ok((sa, sp, sc))) => expr_views(na@) == sa && expr_views(pa@) == sp && c == sc,
            (Err(e), Err(x)) => e@ == x,
            _ => false,
        },
        (r is Ok) ==> r->Ok_0.2 == epsilon * n_functions(expr_views(attributes@)),
{
    let ghost attrs = expr_views(attributes@);
    let ghost fa = expr_views(flex_attributes@);
    proof {
        lemma_expr_views(attributes@);
        lemma_expr_views(flex_attributes@);
    }
    let mut cost: u64 = 0;
    let mut new_attributes: Vec<ExprT> = Vec::new();
    let mut projection_attributes: Vec<ExprT> = Vec::new();
    let mut i: usize = 0;
    proof {
        assert(expr_views(new_attributes@) =~= Seq::<ExprTV>::empty());
        assert(expr_views(projection_attributes@) =~= Seq::<ExprTV>::empty());
    }
    while i < attributes.len()
        invariant
            epsilon != 0,
            attrs == expr_views(attributes@),
            fa == expr_views(flex_attributes@),
            attrs.len() == attributes@.len(),
            fa.len() == attrs.len(),
            flex_attributes@.len() == attributes@.len(),
            forall|q: int| 0 <= q < attributes@.len() ==> #[trigger] attrs[q] == attributes@[q]@,
            forall|q: int| 0 <= q < flex_attributes@.len() ==> #[trigger] fa[q] == flex_attributes@[q]@,
            keys_view(grouping_keys@) == group_keys(gb),
            i <= attributes@.len(),
            noise_attrs(epsilon, gb, attrs, fa, i as nat) == Ok::<_, ErrorV>(
                (expr_views(new_attributes@), expr_views(projection_attributes@), cost),
            ),
        decreases attributes@.len() - i,
    {
        let expr = &attributes[i];
        let ghost na0 = new_attributes@;
        let ghost pa0 = projection_attributes@;
        match &expr.root {
            Expr::Column(k) => {
                assert(attrs[i as int].root == ExprV::Column(k@));
                if !in_keys(&grouping_keys, k) {
                    proof {
                        noise_attrs_err(epsilon, gb, attrs, fa, (i + 1) as nat, attrs.len());
                    }
                    return Err(Error::NoMatch);
                }
                new_attributes.push(alias_of(expr.clone(), String::from_str(k.name())));
                projection_attributes.push(expr.clone());
            },
            Expr::Function { .. } => {
                let sensitivity = match &flex_attributes[i].board {
                    Err(e) => {
                        proof {
                            noise_attrs_err(epsilon, gb, attrs, fa, (i + 1) as nat, attrs.len());
                        }
                        return Err(Error::Validate(e.clone()));
                    },
                    Ok(m) => match m.sensitivity {
                        Some(s) => s,
                        None => {
                            proof {
                                noise_attrs_err(epsilon, gb, attrs, fa, (i + 1) as nat, attrs.len());
                            }
                            return Err(Error::NoMatch);
                        },
                    },
                };
                let distribution = Distribution::Laplace {
                    mean: 0,
                    variance_num: sensitivity,
                    variance_den: epsilon,
                };
                cost = match cost.checked_add(epsilon) {
                    Some(c) => c,
                    None => {
                        proof {
                            noise_attrs_err(epsilon, gb, attrs, fa, (i + 1) as nat, attrs.len());
                        }
                        return Err(Error::NoMatch);
                    },
                };
                let alias = positional_alias(i);
                let noisy = ExprT::lift(Expr::Noisy { expr: Box::new(expr.clone()), distribution });
                new_attributes.push(alias_of(noisy, alias.clone()));
                projection_attributes.push(column(ContextKey::with_name(alias.as_str())));
            },
            _ => {
                proof {
                    noise_attrs_err(epsilon, gb, attrs, fa, (i + 1) as nat, attrs.len());
                }
                return Err(Error::NoMatch);
            },
        }
        proof {
            lemma_expr_views(new_attributes@);
            lemma_expr_views(projection_attributes@);
            lemma_expr_views(na0);
            lemma_expr_views(pa0);
            assert(expr_views(new_attributes@) =~= expr_views(na0).push(new_attributes@.last()@));
            assert(expr_views(projection_attributes@) =~= expr_views(pa0).push(projection_attributes@.last()@));
        }
        i += 1;
    }
    proof {
        noise_attrs_cost(epsilon, gb, attrs, fa, attrs.len());
        assert(attrs.subrange(0, attrs.len() as int) =~= attrs);
    }
    Ok((new_attributes, projection_attributes, cost))
}

/// Builds the noised aggregation, its bucket filter and the final projection.
fn dp_build(
    epsilon: u64,
    new_attributes: Vec<ExprT>,
    projection_attributes: Vec<ExprT>,
    group_by: &Vec<ExprT>,
    from: &Box<RelT>,
    threshold: i64,
) -> (r: RelT)
    ensures
        r@ == dp_tree(
            epsilon,
            expr_views(new_attributes@),
            expr_views(projection_attributes@),
            expr_views(group_by@),
            from@,
            threshold,
        ),
{
    let mut new_attributes = new_attributes;
    let one = ExprT::lift(Expr::Literal(LiteralValue::Long(1)));
    let mut count_args: Vec<ExprT> = Vec::new();
    count_args.push(one);
    proof {
        lemma_expr_views(count_args@);
        assert(expr_views(count_args@) =~= seq![count_args@[0]@]);
    }
    let count = ExprT::lift(
        Expr::Function { name: FunctionName::Count, args: count_args, distinct: false },
    );
    let bucket_noise = Distribution::Laplace { mean: 0, variance_num: 1, variance_den: epsilon };
    let noisy_count = ExprT::lift(Expr::Noisy { expr: Box::new(count), distribution: bucket_noise });
    let ghost na1 = new_attributes@;
    new_attributes.push(alias_of(noisy_count, String::from_str("__bucket_count")));
    proof {
        lemma_expr_views(new_attributes@);
        lemma_expr_views(na1);
        assert(expr_views(new_attributes@) =~= expr_views(na1).push(bucket_count(epsilon)));
    }
    let noised_root = RelT::lift(
        Rel::Aggregation {
            attributes: new_attributes,
            group_by: clone_exprs(group_by),
            from: Box::new((**from).clone()),
        },
    );
    let where_bucket_count = ExprT::lift(
        Expr::BinaryOp {
            left: Box::new(column(ContextKey::with_name("__bucket_count"))),
            op: BinaryOperator::Gt,
            right: Box::new(ExprT::lift(Expr::Literal(LiteralValue::Long(threshold)))),
        },
    );
    let selection = RelT::lift(
        Rel::Selection { from: Box::new(noised_root), where_: Box::new(where_bucket_count) },
    );
    let new_root = RelT::lift(
        Rel::Projection { attributes: projection_attributes, from: Box::new(selection) },
    );
    proof {
        assert(new_root@ == dp_tree(
            epsilon,
            expr_views(na1),
            expr_views(projection_attributes@),
            expr_views(group_by@),
            from@,
            threshold,
        ));
    }
    new_root
}

impl DifferentialPrivacyPolicy {
    /// Noises every aggregate of an aggregation node, drops the groups whose
    /// noised size is too small, and keeps the attributes the query asked
    /// for; `epsilon` is spent for each noised aggregate.
    #[verifier::rlimit(100)]
    #[verifier::spinoff_prover]
    pub fn transform_rel(&self, rel: &RelT, schema: &Context<TableMeta>) -> (r: Result<
        Costly<RelT>,
        Error,
    >)
        ensures
            match (r, spec_dp(*self, rel@, schema@)) {
                (Ok(c), Ok((t, cost))) => c.root@ == t && c.cost == cost,
                (Err(e), Err(x)) => e@ == x,
                _ => false,
            },
            (r is Ok) ==> (rel.root is Aggregation) && r->Ok_0.cost == self.epsilon * n_functions(
                expr_views(rel.root->Aggregation_attributes@),
            ),
            (r is Ok) ==> r->Ok_0.root@ == spec_rebase(schema@, r->Ok_0.root@),
    {
        let ghost rv = rel@;
        let (attributes, group_by, from) = match &rel.root {
            Rel::Aggregation { attributes, group_by, from } => (attributes, group_by, from),
            _ => {
                return Err(Error::NoMatch);
            },
        };
        let ghost attrs = expr_views(attributes@);
        let ghost gb = expr_views(group_by@);
        proof {
            lemma_expr_views(attributes@);
            lemma_expr_views(group_by@);
        }
        if self.epsilon == 0 {
            return Err(Error::NoMatch);
        }
        let flex = rebase(schema, rel);
        if let Err(_) = &flex.board {
            return Err(Error::NoMatch);
        }
        let (flex_attributes, flex_group_by, flex_from) = match &flex.root {
            Rel::Aggregation { attributes, group_by, from } => (attributes, group_by, from),
            _ => {
                return Err(Error::NoMatch);
            },
        };
        let ghost fa = expr_views(flex_attributes@);
        let ghost fg = expr_views(flex_group_by@);
        proof {
            lemma_expr_views(flex_attributes@);
            lemma_expr_views(flex_group_by@);
        }
        if flex_attributes.len() != attributes.len() || flex_group_by.len() != group_by.len() {
            return Err(Error::NoMatch);
        }
        let grouping_keys = match check_group_by(group_by, flex_group_by) {
            Ok(k) => k,
            Err(e) => {
                return Err(e);
            },
        };
        let entity_key = ContextKey::with_name(self.entity.as_str());
        assert(entity_key@ == seq![self.entity@]);
        let maximum_frequency = match &flex_from.board {
            Ok(fm) => match fm.columns.get_column(&entity_key) {
                Ok(m) => match m.max_frequency {
                    Some(f) => f,
                    None => {
                        assert(flex_from@.board == Ok::<TableMetaV, ValidateErrorV>(fm@));
                        assert(primary_frequency(self.entity@, flex_from@) == Err::<u64, ErrorV>(ErrorV::NoMatch));
                        assert(flex@.root == RelV::Aggregation { attributes: fa, group_by: fg, from: Box::new(flex_from@) });
                        assert(group_check(gb, fg, gb.len()) is Ok);
                        return Err(Error::NoMatch);
                    },
                },
                Err(_) => {
                    return Err(Error::NoMatch);
                },
            },
            Err(e) => {
                return Err(Error::Validate(e.clone()));
            },
        };
        let threshold = match self.bucket_size.checked_mul(maximum_frequency) {
            Some(t) => {
                if t > i64::MAX as u64 {
                    return Err(Error::NoMatch);
                }
                t as i64
            },
            None => {
                return Err(Error::NoMatch);
            },
        };
        let (new_attributes, projection_attributes, cost) = match noise_all(
            self.epsilon,
            attributes,
            flex_attributes,
            &grouping_keys,
            Ghost(gb),
        ) {
            Ok(t) => t,
            Err(e) => {
                return Err(e);
            },
        };
        let ghost na1 = expr_views(new_attributes@);
        let ghost pa1 = expr_views(projection_attributes@);
        let new_root = dp_build(self.epsilon, new_attributes, projection_attributes, group_by, from, threshold);
        let root = rebased(schema, &new_root);
        Ok(Costly { root, cost })
    }
}

fn rel_box(t: RelT) -> (r: Box<RelT>)
    ensures
        r@ == t@,
{
    Box::new(t)
}

/// Each attribute named by its position: `f{i}_`.
pub open spec fn positional(attrs: Seq<ExprTV>) -> Seq<ExprTV> {
    Seq::new(
        attrs.len(),
        |i: int| lifted(ExprV::As { expr: Box::new(attrs[i]), alias: positional_name(i as nat) }),
    )
}

/// `COUNT(DISTINCT entity) AS alias`.
pub open spec fn entity_count(entity: Seq<Seq<char>>, alias: Seq<char>) -> ExprTV {
    let count = lifted(
        ExprV::Function {
            name: FunctionName::Count,
            args: seq![lifted(ExprV::Column(entity))],
            distinct: true,
        },
    );
    lifted(ExprV::As { expr: Box::new(count), alias })
}

/// `t` with the entity column carried up through every projection and
/// counted, distinct and under `alias`, by every aggregation, whose other
/// attributes are named by position; each table keeps the schema's
/// annotation; `NoMatch` when a table is unknown or lacks the entity.
pub open spec fn spec_carry(
    schema: Seq<(Seq<Seq<char>>, TableMetaV)>,
    t: RelTV,
    entity: Seq<Seq<char>>,
    alias: Seq<char>,
) -> Result<RelTV, ErrorV>
    decreases t,
{
    match t.root {
        RelV::Table(k) => match spec_get(schema, k) {
            Ok(tm) => match spec_get_column(tm.columns, entity) {
                Ok(_) => Ok(RelTV { root: RelV::Table(k), board: Ok(tm) }),
                Err(_) => Err(ErrorV::NoMatch),
            },
            Err(_) => Err(ErrorV::NoMatch),
        },
        RelV::Projection { attributes, from } => match spec_carry(schema, *from, entity, alias) {
            Err(x) => Err(x),
            Ok(f) => Ok(
                rel_lifted(
                    RelV::Projection {
                        attributes: attributes.push(lifted(ExprV::Column(entity))),
                        from: Box::new(f),
                    },
                ),
            ),
        },
        RelV::Aggregation { attributes, group_by, from } => match spec_carry(
            schema,
            *from,
            entity,
            alias,
        ) {
            Err(x) => Err(x),
            Ok(f) => Ok(
                rel_lifted(
                    RelV::Aggregation {
                        attributes: positional(attributes).push(entity_count(entity, alias)),
                        group_by,
                        from: Box::new(f),
                    },
                ),
            ),
        },
        RelV::WithAlias { from, alias: a } => match spec_carry(schema, *from, entity, alias) {
            Err(x) => Err(x),
            Ok(f) => Ok(rel_lifted(RelV::WithAlias { from: Box::new(f), alias: a })),
        },
        RelV::Selection { from, where_ } => match spec_carry(schema, *from, entity, alias) {
            Err(x) => Err(x),
            Ok(f) => Ok(rel_lifted(RelV::Selection { from: Box::new(f), where_ })),
        },
        RelV::Offset { from, n } => match spec_carry(schema, *from, entity, alias) {
            Err(x) => Err(x),
            Ok(f) => Ok(rel_lifted(RelV::Offset { from: Box::new(f), n })),
        },
        RelV::Limit { from, n } => match spec_carry(schema, *from, entity, alias) {
            Err(x) => Err(x),
            Ok(f) => Ok(rel_lifted(RelV::Limit { from: Box::new(f), n })),
        },
        RelV::OrderBy { from, keys } => match spec_carry(schema, *from, entity, alias) {
            Err(x) => Err(x),
            Ok(f) => Ok(rel_lifted(RelV::OrderBy { from: Box::new(f), keys })),
        },
        RelV::Distinct { from } => match spec_carry(schema, *from, entity, alias) {
            Err(x) => Err(x),
            Ok(f) => Ok(rel_lifted(RelV::Distinct { from: Box::new(f) })),
        },
        RelV::Join { left, right, kind, on } => match spec_carry(schema, *left, entity, alias) {
            Err(x) => Err(x),
            Ok(l) => match spec_carry(schema, *right, entity, alias) {
                Err(x) => Err(x),
                Ok(r) => Ok(rel_lifted(RelV::Join { left: Box::new(l), right: Box::new(r), kind, on })),
            },
        },
        RelV::SetOperation { left, right, op } => match spec_carry(schema, *left, entity, alias) {
            Err(x) => Err(x),
            Ok(l) => match spec_carry(schema, *right, entity, alias) {
                Err(x) => Err(x),
                Ok(r) => Ok(rel_lifted(RelV::SetOperation { left: Box::new(l), right: Box::new(r), op })),
            },
        },
    }
}

/// `Projection([f0_ .. f{n-2}_], Selection(rewritten, alias > k))`, before
/// the final rebase.
pub open spec fn agg_tree(rewritten: RelTV, alias: Seq<char>, k: i64, n: nat) -> RelTV {
    let where_ = lifted(
        ExprV::BinaryOp {
            left: Box::new(lifted(ExprV::Column(seq![alias]))),
            op: BinaryOperator::Gt,
            right: Box::new(lifted(ExprV::Literal(LiteralValueV::Long(k)))),
        },
    );
    let selection = rel_lifted(RelV::Selection { from: Box::new(rewritten), where_: Box::new(where_) });
    rel_lifted(
        RelV::Projection {
            attributes: Seq::new(
                (n - 1) as nat,
                |i: int| lifted(ExprV::Column(seq![positional_name(i as nat)])),
            ),
            from: Box::new(selection),
        },
    )
}

/// What the aggregation policy gives for `rel`: the rebased, filtered
/// rewrite, or `NoMatch`.
pub open spec fn spec_aggregation(
    p: AggregationPolicy,
    rel: RelTV,
    schema: Seq<(Seq<Seq<char>>, TableMetaV)>,
) -> Result<RelTV, ErrorV> {
    if !(rel.root is Aggregation) {
        Err(ErrorV::NoMatch)
    } else {
        let entity = seq![p.entity@];
        let alias = "policy_"@ + p.entity@;
        match spec_carry(schema, rel, entity, alias) {
            Err(x) => Err(x),
            Ok(w) => {
                let rw = spec_rebase(schema, w);
                match rw.board {
                    Err(_) => Err(ErrorV::NoMatch),
                    Ok(b) => if spec_get(b.columns, seq![alias]) is Err {
                        Err(ErrorV::NoMatch)
                    } else if p.minimum_bucket_size > i64::MAX || b.columns.len() == 0 {
                        Err(ErrorV::NoMatch)
                    } else {
                        Ok(
                            spec_rebase(
                                schema,
                                agg_tree(rw, alias, p.minimum_bucket_size as i64, b.columns.len()),
                            ),
                        )
                    },
                }
            },
        }
    }
}

fn carry_box(t: &Box<RelT>, schema: &Context<TableMeta>, entity: &ContextKey, alias: &String) -> (r: Result<Box<RelT>, Error>)
    ensures
        match (r, spec_carry(schema@, t@, entity@, alias@)) {
            (Ok(x), Ok(y)) => x@ == y,
            (Err(e), Err(y)) => e@ == y,
            _ => false,
        },
    decreases t, 1int,
{
    match carry_entity(&**t, schema, entity, alias) {
        Ok(x) => Ok(rel_box(x)),
        Err(e) => Err(e),
    }
}

/// The tree `t` with the entity column carried up through every
/// projection and counted, distinct, by every aggregation; `NoMatch` when
/// a table of the tree lacks the entity.
fn carry_entity(t: &RelT, schema: &Context<TableMeta>, entity: &ContextKey, alias: &String) -> (r: Result<RelT, Error>)
    ensures
        match (r, spec_carry(schema@, t@, entity@, alias@)) {
            (Ok(x), Ok(y)) => x@ == y,
            (Err(e), Err(y)) => e@ == y,
            _ => false,
        },
    decreases t, 0int,
{
    proof {
        assert(decreases_to!(t => t.root));
    }
    let root = match &t.root {
        Rel::Table(k) => {
            return match schema.get(k) {
                Ok(tm) => match tm.columns.get_column(entity) {
                    Ok(_) => Ok(RelT { root: Rel::Table(k.clone()), board: Ok(tm.clone()) }),
                    Err(_) => Err(Error::NoMatch),
                },
                Err(_) => Err(Error::NoMatch),
            };
        },
        Rel::Projection { attributes, from } => {
            let f = match carry_box(from, schema, entity, alias) {
                Ok(f) => f,
                Err(e) => {
                    return Err(e);
                },
            };
            let mut attrs = clone_exprs(attributes);
            let ghost before = attrs@;
            attrs.push(column(entity.clone()));
            proof {
                lemma_expr_views(attrs@);
                lemma_expr_views(before);
                assert(expr_views(attrs@) =~= expr_views(attributes@).push(lifted(ExprV::Column(entity@))));
            }
            Rel::Projection { attributes: attrs, from: f }
        },
        Rel::Aggregation { attributes, group_by, from } => {
            let f = match carry_box(from, schema, entity, alias) {
                Ok(f) => f,
                Err(e) => {
                    return Err(e);
                },
            };
            let mut attrs: Vec<ExprT> = Vec::new();
            let mut i: usize = 0;
            proof {
                lemma_expr_views(attributes@);
            }
            while i < attributes.len()
                invariant
                    i <= attributes@.len(),
                    attrs@.len() == i,
                    expr_views(attributes@).len() == attributes@.len(),
                    forall|q: int| 0 <= q < attributes@.len() ==> #[trigger] expr_views(attributes@)[q] == attributes@[q]@,
                    forall|q: int| 0 <= q < i ==> (#[trigger] attrs@[q])@ == positional(expr_views(attributes@))[q],
                decreases attributes@.len() - i,
            {
                attrs.push(alias_of(attributes[i].clone(), positional_alias(i)));
                i += 1;
            }
            let mut args: Vec<ExprT> = Vec::new();
            args.push(column(entity.clone()));
            proof {
                lemma_expr_views(args@);
                assert(expr_views(args@) =~= seq![lifted(ExprV::Column(entity@))]);
            }
            let count = ExprT::lift(Expr::Function { name: FunctionName::Count, args, distinct: true });
            let ghost before = attrs@;
            attrs.push(alias_of(count, alias.clone()));
            proof {
                lemma_expr_views(attrs@);
                lemma_expr_views(before);
                assert(expr_views(attrs@) =~= positional(expr_views(attributes@)).push(entity_count(entity@, alias@)));
            }
            Rel::Aggregation { attributes: attrs, group_by: clone_exprs(group_by), from: f }
        },
        Rel::WithAlias { from, alias: a } => Rel::WithAlias {
            from: match carry_box(from, schema, entity, alias) {
                Ok(f) => f,
                Err(e) => {
                    return Err(e);
                },
            },
            alias: a.clone(),
        },
        Rel::Selection { from, where_ } => Rel::Selection {
            from: match carry_box(from, schema, entity, alias) {
                Ok(f) => f,
                Err(e) => {
                    return Err(e);
                },
            },
            where_: Box::new((**where_).clone()),
        },
        Rel::Offset { from, n } => Rel::Offset {
            from: match carry_box(from, schema, entity, alias) {
                Ok(f) => f,
                Err(e) => {
                    return Err(e);
                },
            },
            n: *n,
        },
        Rel::Limit { from, n } => Rel::Limit {
            from: match carry_box(from, schema, entity, alias) {
                Ok(f) => f,
                Err(e) => {
                    return Err(e);
                },
            },
            n: *n,
        },
        Rel::OrderBy { from, keys } => Rel::OrderBy {
            from: match carry_box(from, schema, entity, alias) {
                Ok(f) => f,
                Err(e) => {
                    return Err(e);
                },
            },
            keys: clone_exprs(keys),
        },
        Rel::Distinct { from } => Rel::Distinct {
            from: match carry_box(from, schema, entity, alias) {
                Ok(f) => f,
                Err(e) => {
                    return Err(e);
                },
            },
        },
        Rel::Join { left, right, kind, on } => {
            let l = match carry_box(left, schema, entity, alias) {
                Ok(f) => f,
                Err(e) => {
                    return Err(e);
                },
            };
            let r = match carry_box(right, schema, entity, alias) {
                Ok(f) => f,
                Err(e) => {
                    return Err(e);
                },
            };
            Rel::Join {
                left: l,
                right: r,
                kind: *kind,
                on: match on {
                    Some(e) => Some(Box::new((**e).clone())),
                    None => None,
                },
            }
        },
        Rel::SetOperation { left, right, op } => {
            let l = match carry_box(left, schema, entity, alias) {
                Ok(f) => f,
                Err(e) => {
                    return Err(e);
                },
            };
            let r = match carry_box(right, schema, entity, alias) {
                Ok(f) => f,
                Err(e) => {
                    return Err(e);
                },
            };
            Rel::SetOperation { left: l, right: r, op: *op }
        },
    };
    let r = RelT::lift(root);
    assert(r@ == spec_carry(schema@, t@, entity@, alias@)->Ok_0);
    Ok(r)
}

impl AggregationPolicy {
    /// Counts the distinct entities of each group of an aggregation node and
    /// keeps only the groups with more than `minimum_bucket_size` of them.
    #[verifier::rlimit(60)]
    pub fn transform_rel(&self, rel: &RelT, schema: &Context<TableMeta>) -> (r: Result<
        Costly<RelT>,
        Error,
    >)
        ensures
            match (r, spec_aggregation(*self, rel@, schema@)) {
                (Ok(c), Ok(t)) => c.root@ == t && c.cost == 0,
                (Err(e), Err(x)) => e@ == x,
                _ => false,
            },
            (r is Ok) ==> r->Ok_0.root@ == spec_rebase(schema@, r->Ok_0.root@),
    {
        match &rel.root {
            Rel::Aggregation { .. } => {},
            _ => {
                return Err(Error::NoMatch);
            },
        }
        let entity_key = ContextKey::with_name(self.entity.as_str());
        proof {
            reveal_strlit("policy_");
        }
        let alias_str = String::from_str("policy_").concat(entity_key.name());
        assert(alias_str@ == "policy_"@ + self.entity@);
        let entity_alias = ContextKey::with_name(alias_str.as_str());
        let rewritten = match carry_entity(rel, schema, &entity_key, &alias_str) {
            Ok(w) => w,
            Err(e) => {
                return Err(e);
            },
        };
        let rewritten = rebase(schema, &rewritten);
        let num_cols = match &rewritten.board {
            Err(_) => {
                return Err(Error::NoMatch);
            },
            Ok(board) => {
                if board.columns.get(&entity_alias).is_err() {
                    return Err(Error::NoMatch);
                }
                board.columns.len()
            },
        };
        if self.minimum_bucket_size > i64::MAX as u64 || num_cols == 0 {
            return Err(Error::NoMatch);
        }
        let where_ = ExprT::lift(
            Expr::BinaryOp {
                left: Box::new(column(entity_alias)),
                op: BinaryOperator::Gt,
                right: Box::new(
                    ExprT::lift(Expr::Literal(LiteralValue::Long(self.minimum_bucket_size as i64))),
                ),
            },
        );
        let ghost rw = rewritten@;
        let mut attributes: Vec<ExprT> = Vec::new();
        let mut i: usize = 0;
        while i < num_cols - 1
            invariant
                i <= num_cols - 1,
                attributes@.len() == i,
                forall|q: int| 0 <= q < i ==> (#[trigger] attributes@[q])@ == lifted(ExprV::Column(seq![positional_name(q as nat)])),
            decreases num_cols - 1 - i,
        {
            attributes.push(column(ContextKey::with_name(positional_alias(i).as_str())));
            i += 1;
        }
        proof {
            lemma_expr_views(attributes@);
            assert(expr_views(attributes@) =~= Seq::new(
                (num_cols - 1) as nat,
                |q: int| lifted(ExprV::Column(seq![positional_name(q as nat)])),
            ));
        }
        let selection = RelT::lift(Rel::Selection { from: rel_box(rewritten), where_: Box::new(where_) });
        let new_root = RelT::lift(Rel::Projection { attributes, from: rel_box(selection) });
        assert(new_root@ == agg_tree(rw, alias_str@, self.minimum_bucket_size as i64, num_cols as nat));
        let root = rebased(schema, &new_root);
        Ok(Costly::from(root))
    }
}

/// A policy that may rewrite a whole relation, against a schema of tables.
pub trait RelTransform {
    fn transform_rel(&self, rel: &RelT, schema: &Context<TableMeta>) -> Result<Costly<RelT>, Error>;
}

impl RelTransform for DifferentialPrivacyPolicy {
    fn transform_rel(&self, rel: &RelT, schema: &Context<TableMeta>) -> Result<Costly<RelT>, Error> {
        DifferentialPrivacyPolicy::transform_rel(self, rel, schema)
    }
}

impl RelTransform for AggregationPolicy {
    fn transform_rel(&self, rel: &RelT, schema: &Context<TableMeta>) -> Result<Costly<RelT>, Error> {
        AggregationPolicy::transform_rel(self, rel, schema)
    }
}

impl RelTransform for Policy {
    fn transform_rel(&self, rel: &RelT, schema: &Context<TableMeta>) -> Result<Costly<RelT>, Error> {
        Policy::transform_rel(self, rel, schema)
    }
}

/// What policy `p` gives for the relation `rel`: the rewrite and its cost.
#[verifier::opaque]
pub open spec fn spec_policy_rel(
    p: Policy,
    rel: RelTV,
    schema: Seq<(Seq<Seq<char>>, TableMetaV)>,
) -> Result<(RelTV, u64), ErrorV> {
    match p {
        Policy::DifferentialPrivacy(d) => spec_dp(d, rel, schema),
        Policy::Aggregation(a) => match spec_aggregation(a, rel, schema) {
            Ok(t) => Ok((t, 0u64)),
            Err(x) => Err(x),
        },
        _ => Err(ErrorV::NoMatch),
    }
}

impl Policy {
    /// What the policy proposes for a whole relation; the expression policies
    /// never rewrite one.
    pub fn transform_rel(&self, rel: &RelT, schema: &Context<TableMeta>) -> (r: Result<Costly<RelT>, Error>)
        ensures
            match (r, spec_policy_rel(*self, rel@, schema@)) {
                (Ok(c), Ok((t, cost))) => c.root@ == t && c.cost == cost,
                (Err(e), Err(x)) => e@ == x,
                _ => false,
            },
            !(rel.root is Aggregation) ==> (r is Err) && r->Err_0@ == ErrorV::NoMatch,
            (r is Ok) ==> r->Ok_0.root@ == spec_rebase(schema@, r->Ok_0.root@),
    {
        proof {
            reveal(spec_policy_rel);
        }
        match self {
            Policy::DifferentialPrivacy(p) => p.transform_rel(rel, schema),
            Policy::Aggregation(p) => p.transform_rel(rel, schema),
            _ => Err(Error::NoMatch),
        }
    }
}

} // verus!
