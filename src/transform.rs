use vstd::prelude::*;

use crate::context::{first_index, lemma_first_index, Context};
use crate::error::ValidateError;
use crate::expr::{clone_exprs, expr_views, lemma_expr_views, Expr, ExprT, ExprTV, ExprV};
use crate::key::{is_key_prefix, ContextKey};
use crate::meta::{
    audiences, children, contains_key, keys_view, lemma_first_err_none, lemma_keep_in, meet_all,
    meta_of, spec_expr_dot, spec_type_dot, ExprMeta, ExprMetaV,
};
use crate::policy::{Error, ErrorV, PolicyBinding, PolicyBindingV};
use crate::rel::{clone_rel_board, Rel, RelT, RelTV, TableMeta};

verus! {

/// The sum of the costs of a cost map.
pub open spec fn total(c: Seq<(Seq<Seq<char>>, u64)>) -> nat
    decreases c.len(),
{
    if c.len() == 0 {
        0
    } else {
        (total(c.drop_last()) + c.last().1) as nat
    }
}

pub open spec fn saturate(n: nat) -> u64 {
    if n > u64::MAX {
        u64::MAX
    } else {
        n as u64
    }
}

/// `acc` with the cost `v` added to key `k`, saturating.
pub open spec fn add_one(acc: Seq<(Seq<Seq<char>>, u64)>, k: Seq<Seq<char>>, v: u64) -> Seq<
    (Seq<Seq<char>>, u64),
> {
    match first_index(acc, k) {
        Some(i) => acc.update(i, (k, saturate((acc[i].1 + v) as nat))),
        None => acc.push((k, v)),
    }
}

/// `acc` with every cost of `c` added to its key.
pub open spec fn add_costs(acc: Seq<(Seq<Seq<char>>, u64)>, c: Seq<(Seq<Seq<char>>, u64)>) -> Seq<
    (Seq<Seq<char>>, u64),
>
    decreases c.len(),
{
    if c.len() == 0 {
        acc
    } else {
        let a = add_costs(acc, c.drop_last());
        add_one(a, c.last().0, c.last().1)
    }
}

/// A rewrite, the cost it spends under each binding key, and the highest
/// priority among the rewrites it is made of.
pub struct Transformed<T> {
    pub root: T,
    pub cost: Context<u64>,
    pub priority: u64,
}

impl<T> Transformed<T> {
    /// An unchanged tree: no cost, priority zero.
    pub fn default(root: T) -> (r: Transformed<T>)
        ensures
            r.root == root,
            r.cost@ == Seq::<(Seq<Seq<char>>, u64)>::empty(),
            r.priority == 0,
    {
        Transformed { root, cost: Context::new(), priority: 0 }
    }

    /// A rewrite by a policy of the binding at `binding_key`.
    pub fn new(root: T, binding_key: &ContextKey, cost: u64, priority: u64) -> (r: Transformed<T>)
        ensures
            r.root == root,
            r.cost@ == seq![(binding_key@, cost)],
            r.priority == priority,
    {
        let mut c: Context<u64> = Context::new();
        c.insert(binding_key.clone(), cost);
        assert(c@ =~= seq![(binding_key@, cost)]);
        Transformed { root, cost: c, priority }
    }

    pub fn into_inner(self) -> (r: T)
        ensures
            r == self.root,
    {
        self.root
    }

    /// The sum of all costs, saturating at `u64::MAX`.
    pub fn total_cost(&self) -> (r: u64)
        ensures
            r == saturate(total(self.cost@)),
    {
        let mut sum: u64 = 0;
        let mut i: usize = 0;
        while i < self.cost.entries.len()
            invariant
                i <= self.cost@.len(),
                self.cost@.len() == self.cost.entries@.len(),
                sum == saturate(total(self.cost@.subrange(0, i as int))),
            decreases self.cost@.len() - i,
        {
            proof {
                let s = self.cost@.subrange(0, i + 1);
                assert(s.drop_last() =~= self.cost@.subrange(0, i as int));
            }
            sum = sum.saturating_add(self.cost.entries[i].1);
            i += 1;
        }
        proof {
            assert(self.cost@.subrange(0, self.cost@.len() as int) =~= self.cost@);
        }
        sum
    }

    /// Adds each of this rewrite's costs to `costs`.
    pub fn add_to(&self, costs: &mut Context<u64>)
        ensures
            final(costs)@ == add_costs(old(costs)@, self.cost@),
    {
        let mut i: usize = 0;
        while i < self.cost.entries.len()
            invariant
                i <= self.cost@.len(),
                self.cost@.len() == self.cost.entries@.len(),
                costs@ == add_costs(old(costs)@, self.cost@.subrange(0, i as int)),
            decreases self.cost@.len() - i,
        {
            proof {
                let s = self.cost@.subrange(0, i + 1);
                assert(s.drop_last() =~= self.cost@.subrange(0, i as int));
            }
            let k = &self.cost.entries[i].0;
            let v = self.cost.entries[i].1;
            let ghost before = costs@;
            match costs.get(k) {
                Ok(existing) => {
                    let sum = existing.saturating_add(v);
                    proof {
                        lemma_first_index(before, k@);
                    }
                    costs.insert(k.clone(), sum);
                },
                Err(_) => {
                    costs.insert(k.clone(), v);
                },
            }
            i += 1;
        }
        proof {
            assert(self.cost@.subrange(0, self.cost@.len() as int) =~= self.cost@);
        }
    }
}

/// Position `j` holds the best of `prios`/`costs`: highest priority, then
/// lowest cost, then earliest.
pub open spec fn is_best(prios: Seq<u64>, costs: Seq<u64>, j: int) -> bool {
    &&& 0 <= j < prios.len()
    &&& forall|i: int| 0 <= i < prios.len() ==> prios[i] <= prios[j]
    &&& forall|i: int| 0 <= i < prios.len() && prios[i] == prios[j] ==> costs[j] <= costs[i]
    &&& forall|i: int| 0 <= i < j && prios[i] == prios[j] ==> costs[j] < costs[i]
}

pub open spec fn priorities<T>(v: Seq<Transformed<T>>) -> Seq<u64> {
    v.map_values(|t: Transformed<T>| t.priority)
}

pub open spec fn totals<T>(v: Seq<Transformed<T>>) -> Seq<u64> {
    v.map_values(|t: Transformed<T>| saturate(total(t.cost@)))
}

/// Picks the candidate with the highest priority and, among those, the lowest
/// total cost; the earlier proposal wins a tie.
pub fn best_candidate<T>(proposed: Vec<Transformed<T>>) -> (r: Option<Transformed<T>>)
    ensures
        match r {
            None => proposed@.len() == 0,
            Some(t) => exists|j: int|
                is_best(priorities(proposed@), totals(proposed@), j) && t == #[trigger] proposed@[j],
        },
{
    let mut proposed = proposed;
    let ghost all = proposed@;
    if proposed.len() == 0 {
        return None;
    }
    let mut best: usize = 0;
    let mut best_cost = proposed[0].total_cost();
    let mut i: usize = 1;
    while i < proposed.len()
        invariant
            proposed@ == all,
            1 <= i <= all.len(),
            best < i,
            best_cost == totals(all)[best as int],
            forall|q: int| 0 <= q < i ==> priorities(all)[q] <= priorities(all)[best as int],
            forall|q: int| 0 <= q < i && priorities(all)[q] == priorities(all)[best as int] ==> best_cost <= totals(all)[q],
            forall|q: int| 0 <= q < best && priorities(all)[q] == priorities(all)[best as int] ==> best_cost < totals(all)[q],
        decreases all.len() - i,
    {
        let c = proposed[i].total_cost();
        let p = proposed[i].priority;
        if p > proposed[best].priority || (p == proposed[best].priority && c < best_cost) {
            best = i;
            best_cost = c;
        }
        i += 1;
    }
    let t = proposed.remove(best);
    assert(is_best(priorities(all), totals(all), best as int));
    Some(t)
}

/// The audiences `a` with `x` added, unless it is there already.
pub open spec fn with_audience(a: Seq<Seq<Seq<char>>>, x: Seq<Seq<char>>) -> Seq<Seq<Seq<char>>> {
    if a.contains(x) {
        a
    } else {
        a.push(x)
    }
}

/// Granting an audience never removes one that was there, always makes the
/// granted one present, and adds no other.
pub proof fn audience_monotonicity(a: Seq<Seq<Seq<char>>>, x: Seq<Seq<char>>)
    ensures
        forall|y| a.contains(y) ==> #[trigger] with_audience(a, x).contains(y),
        with_audience(a, x).contains(x),
        forall|y| #[trigger] with_audience(a, x).contains(y) ==> a.contains(y) || y == x,
{
    if !a.contains(x) {
        assert forall|y| a.contains(y) implies #[trigger] with_audience(a, x).contains(y) by {
            crate::meta::lemma_push_contains(a, x, y);
        }
        assert forall|y| #[trigger] with_audience(a, x).contains(y) implies a.contains(y) || y == x by {
            crate::meta::lemma_push_contains(a, x, y);
        }
        crate::meta::lemma_push_contains(a, x, x);
    }
}

/// The annotation `m` that `audience` may also see.
pub open spec fn granted_meta(m: ExprMetaV, audience: Seq<Seq<char>>) -> ExprMetaV {
    ExprMetaV { audience: with_audience(m.audience, audience), ..m }
}

/// Adds `audience` to the audiences of an expression's annotation.
pub fn grant_expr(board: &mut Result<ExprMeta, ValidateError>, audience: &ContextKey) -> (r: Result<(), ValidateError>)
    ensures
        match *old(board) {
            Ok(m) => (r is Ok) && ((*final(board)) is Ok) && {
                let n = (*final(board))->Ok_0;
                &&& n@ == granted_meta(m@, audience@)
            },
            Err(e) => (r is Err) && r->Err_0@ == e@ && *final(board) == *old(board),
        },
{
    match board {
        Ok(m) => {
            if !contains_key(&m.audience, audience) {
                let ghost before = keys_view(m.audience@);
                m.audience.push(audience.clone());
                proof {
                    assert(keys_view(m.audience@) =~= before.push(audience@));
                }
            }
            Ok(())
        },
        Err(e) => Err(e.clone()),
    }
}

/// Adds `audience` to the audiences of a relation's annotation.
pub fn grant_rel(board: &mut Result<TableMeta, ValidateError>, audience: &ContextKey) -> (r: Result<(), ValidateError>)
    ensures
        match *old(board) {
            Ok(m) => (r is Ok) && ((*final(board)) is Ok) && {
                let n = (*final(board))->Ok_0;
                &&& keys_view(n.audience@) == with_audience(keys_view(m.audience@), audience@)
                &&& n@ == crate::rel::TableMetaV { audience: with_audience(keys_view(m.audience@), audience@), ..m@ }
            },
            Err(e) => (r is Err) && r->Err_0@ == e@ && *final(board) == *old(board),
        },
{
    match board {
        Ok(m) => {
            if !contains_key(&m.audience, audience) {
                let ghost before = keys_view(m.audience@);
                m.audience.push(audience.clone());
                proof {
                    assert(keys_view(m.audience@) =~= before.push(audience@));
                }
            }
            Ok(())
        },
        Err(e) => Err(e.clone()),
    }
}

/// The positions, in order, of the bindings whose key is a prefix of `k`.
pub open spec fn spec_filter(b: Seq<(Seq<Seq<char>>, PolicyBindingV)>, k: Seq<Seq<char>>) -> Seq<int>
    decreases b.len(),
{
    if b.len() == 0 {
        Seq::empty()
    } else if is_key_prefix(b.last().0, k) {
        spec_filter(b.drop_last(), k).push(b.len() - 1)
    } else {
        spec_filter(b.drop_last(), k)
    }
}

/// The positions of the bindings that apply to `k`.
pub fn filter_bindings(bindings: &Context<PolicyBinding>, k: &ContextKey) -> (r: Vec<usize>)
    ensures
        r@.map_values(|i: usize| i as int) == spec_filter(bindings@, k@),
        forall|i: int| 0 <= i < r@.len() ==> r@[i] < bindings@.len(),
{
    let mut out: Vec<usize> = Vec::new();
    let mut i: usize = 0;
    assert(out@.map_values(|i: usize| i as int) =~= spec_filter(bindings@.subrange(0, 0), k@));
    while i < bindings.entries.len()
        invariant
            i <= bindings@.len(),
            bindings@.len() == bindings.entries@.len(),
            out@.map_values(|i: usize| i as int) == spec_filter(bindings@.subrange(0, i as int), k@),
            forall|q: int| 0 <= q < out@.len() ==> out@[q] < i,
        decreases bindings@.len() - i,
    {
        proof {
            let s = bindings@.subrange(0, i + 1);
            assert(s.drop_last() =~= bindings@.subrange(0, i as int));
        }
        if bindings.entries[i].0.prefix_matches(k) {
            out.push(i);
            assert(out@.map_values(|i: usize| i as int) =~= spec_filter(bindings@.subrange(0, i + 1), k@));
        } else {
            assert(out@.map_values(|i: usize| i as int) =~= spec_filter(bindings@.subrange(0, i + 1), k@));
        }
        i += 1;
    }
    proof {
        assert(bindings@.subrange(0, bindings@.len() as int) =~= bindings@);
    }
    out
}


/// The highest priority among the bindings.
pub open spec fn top_priority(b: Seq<(Seq<Seq<char>>, PolicyBindingV)>) -> u64
    decreases b.len(),
{
    if b.len() == 0 {
        0
    } else {
        let p = top_priority(b.drop_last());
        if b.last().1.priority > p {
            b.last().1.priority
        } else {
            p
        }
    }
}

pub proof fn lemma_top_priority(b: Seq<(Seq<Seq<char>>, PolicyBindingV)>, i: int)
    requires
        0 <= i < b.len(),
    ensures
        b[i].1.priority <= top_priority(b),
    decreases b.len(),
{
    if i < b.len() - 1 {
        lemma_top_priority(b.drop_last(), i);
    }
}

/// `p` is the priority of no rewrite, or that of a binding.
pub open spec fn bound_priority(b: Seq<(Seq<Seq<char>>, PolicyBindingV)>, p: u64) -> bool {
    p == 0 || exists|i: int| 0 <= i < b.len() && (#[trigger] b[i]).1.priority == p
}

/// A successful annotation of `t` lets `audience` see it.
pub open spec fn granted(t: ExprTV, audience: Seq<Seq<char>>) -> bool {
    (t.board is Ok) ==> meta_of(t).audience.contains(audience)
}

pub proof fn lemma_meet_contains(auds: Seq<Seq<Seq<Seq<char>>>>, x: Seq<Seq<char>>)
    requires
        auds.len() >= 1,
        forall|i: int| 0 <= i < auds.len() ==> (#[trigger] auds[i]).contains(x),
    ensures
        meet_all(auds).contains(x),
    decreases auds.len(),
{
    if auds.len() > 1 {
        lemma_meet_contains(auds.drop_last(), x);
        lemma_keep_in(meet_all(auds.drop_last()), auds.last(), x);
    }
}

/// A node annotated from children that all grant `audience` grants it too.
pub proof fn lemma_lift_granted(r: ExprV, audience: Seq<Seq<char>>)
    requires
        !(r is Column),
        !(r is Literal),
        forall|i: int| 0 <= i < children(r).len() ==> granted(#[trigger] children(r)[i], audience),
    ensures
        granted(crate::policy::lifted(r), audience),
{
    let ch = children(r);
    if spec_expr_dot(r) is Ok {
        lemma_first_err_none(ch);
        assert(spec_type_dot(r) is Ok);
        assert(ch.len() >= 1);
        let auds = audiences(ch);
        assert forall|i: int| 0 <= i < auds.len() implies (#[trigger] auds[i]).contains(audience) by {
            assert(granted(ch[i], audience));
        }
        lemma_meet_contains(auds, audience);
    }
}

/// A proposal as a value: rewritten tree, costs, priority.
pub open spec fn tview(t: Transformed<ExprT>) -> (ExprTV, Seq<(Seq<Seq<char>>, u64)>, u64) {
    (t.root@, t.cost@, t.priority)
}

/// The offers of binding `bi`: each of its policies, in order.
pub open spec fn row(b: Seq<(ContextKey, PolicyBinding)>, bi: int) -> Seq<(int, int)> {
    Seq::new(b[bi].1.policies@.len(), |j: int| (bi, j))
}

/// The (binding, policy) positions offered a node, binding by binding.
pub open spec fn offers(b: Seq<(ContextKey, PolicyBinding)>, sel: Seq<usize>) -> Seq<(int, int)>
    decreases sel.len(),
{
    if sel.len() == 0 {
        Seq::empty()
    } else {
        offers(b, sel.drop_last()) + row(b, sel.last() as int)
    }
}

/// What one offer gives for `e`: nothing, a proposal granted to `audience`,
/// or an error.
pub open spec fn offer(
    b: Seq<(ContextKey, PolicyBinding)>,
    o: (int, int),
    e: ExprTV,
    audience: Seq<Seq<char>>,
) -> Result<Option<(ExprTV, Seq<(Seq<Seq<char>>, u64)>, u64)>, ErrorV> {
    let binding = b[o.0].1;
    match crate::policy::spec_policy_expr(binding.policies@[o.1], e) {
        Err(ErrorV::NoMatch) => Ok(None),
        Err(x) => Err(x),
        Ok((root, cost)) => match root.board {
            Err(ve) => Err(ErrorV::Validate(ve)),
            Ok(m) => if crate::policy::spec_in_budget(binding@.budget, cost) {
                Ok(
                    Some(
                        (
                            ExprTV { root: root.root, board: Ok(granted_meta(m, audience)) },
                            seq![(b[o.0].0@, cost)],
                            binding.priority,
                        ),
                    ),
                )
            } else {
                Ok(None)
            },
        },
    }
}

/// The proposals of the offers `os`, in order; the first error ends them.
pub open spec fn proposals(
    b: Seq<(ContextKey, PolicyBinding)>,
    os: Seq<(int, int)>,
    e: ExprTV,
    audience: Seq<Seq<char>>,
) -> Result<Seq<(ExprTV, Seq<(Seq<Seq<char>>, u64)>, u64)>, ErrorV>
    decreases os.len(),
{
    if os.len() == 0 {
        Ok(Seq::empty())
    } else {
        match proposals(b, os.drop_last(), e, audience) {
            Err(x) => Err(x),
            Ok(ps) => match offer(b, os.last(), e, audience) {
                Err(x) => Err(x),
                Ok(None) => Ok(ps),
                Ok(Some(p)) => Ok(ps.push(p)),
            },
        }
    }
}

pub proof fn lemma_proposals_err(
    b: Seq<(ContextKey, PolicyBinding)>,
    os: Seq<(int, int)>,
    n: int,
    e: ExprTV,
    audience: Seq<Seq<char>>,
)
    requires
        0 <= n <= os.len(),
        proposals(b, os.subrange(0, n), e, audience) is Err,
    ensures
        proposals(b, os, e, audience) == proposals(b, os.subrange(0, n), e, audience),
    decreases os.len(),
{
    if n < os.len() {
        assert(os.drop_last().subrange(0, n) =~= os.subrange(0, n));
        lemma_proposals_err(b, os.drop_last(), n, e, audience);
    } else {
        assert(os.subrange(0, n) =~= os);
    }
}

pub proof fn lemma_offers_prefix(b: Seq<(ContextKey, PolicyBinding)>, sel: Seq<usize>, i: int)
    requires
        0 <= i <= sel.len(),
    ensures
        offers(b, sel.subrange(0, i)).len() <= offers(b, sel).len(),
        offers(b, sel).subrange(0, offers(b, sel.subrange(0, i)).len() as int) == offers(b, sel.subrange(0, i)),
    decreases sel.len(),
{
    if i < sel.len() {
        assert(sel.drop_last().subrange(0, i) =~= sel.subrange(0, i));
        lemma_offers_prefix(b, sel.drop_last(), i);
        let p = offers(b, sel.subrange(0, i));
        let d = offers(b, sel.drop_last());
        assert(offers(b, sel).subrange(0, p.len() as int) =~= d.subrange(0, p.len() as int));
    } else {
        assert(sel.subrange(0, i) =~= sel);
        assert(offers(b, sel).subrange(0, offers(b, sel).len() as int) =~= offers(b, sel));
    }
}

pub open spec fn pv_priorities(ps: Seq<(ExprTV, Seq<(Seq<Seq<char>>, u64)>, u64)>) -> Seq<u64> {
    ps.map_values(|p: (ExprTV, Seq<(Seq<Seq<char>>, u64)>, u64)| p.2)
}

pub open spec fn pv_totals(ps: Seq<(ExprTV, Seq<(Seq<Seq<char>>, u64)>, u64)>) -> Seq<u64> {
    ps.map_values(|p: (ExprTV, Seq<(Seq<Seq<char>>, u64)>, u64)| saturate(total(p.1)))
}

/// Rewrites expressions under the bindings selected for one table, for one
/// audience.
pub struct ExprTransformer<'a> {
    pub bindings: &'a Context<PolicyBinding>,
    pub selected: Vec<usize>,
    pub audience: &'a ContextKey,
}

/// Costs and priority after a rewrite of a child is counted in.
pub open spec fn acc_step(
    a: (Seq<(Seq<Seq<char>>, u64)>, u64),
    t: (Seq<(Seq<Seq<char>>, u64)>, u64),
) -> (Seq<(Seq<Seq<char>>, u64)>, u64) {
    (add_costs(a.0, t.0), if t.1 > a.1 {
        t.1
    } else {
        a.1
    })
}

/// Only one position is the best of a list.
pub proof fn lemma_best_unique(p: Seq<u64>, c: Seq<u64>, j: int, k: int)
    requires
        p.len() == c.len(),
        is_best(p, c, j),
        is_best(p, c, k),
    ensures
        j == k,
{
    assert(p[j] <= p[k] && p[k] <= p[j]);
    assert(c[j] <= c[k] && c[k] <= c[j]);
}

/// What the expression transformer gives for `e`: the best proposal of the
/// selected policies; `NoMatch` for a leaf that none rewrites; otherwise
/// every child rewritten in order, their costs added and their highest
/// priority, the first failure of a child failing the whole.
pub open spec fn spec_te(
    b: Seq<(ContextKey, PolicyBinding)>,
    sel: Seq<usize>,
    aud: Seq<Seq<char>>,
    e: ExprTV,
) -> Result<(ExprTV, Seq<(Seq<Seq<char>>, u64)>, u64), ErrorV>
    decreases e, 1int,
{
    match proposals(b, offers(b, sel), e, aud) {
        Err(x) => Err(x),
        Ok(ps) => if ps.len() > 0 {
            Ok(ps[choose|j: int| is_best(pv_priorities(ps), pv_totals(ps), j)])
        } else if (e.root is Column) || (e.root is Literal) {
            Err(ErrorV::NoMatch)
        } else {
            spec_te_children(b, sel, aud, e)
        },
    }
}

/// One child rewritten, with the costs and priority so far.
pub open spec fn te1(
    b: Seq<(ContextKey, PolicyBinding)>,
    sel: Seq<usize>,
    aud: Seq<Seq<char>>,
    a: (Seq<(Seq<Seq<char>>, u64)>, u64),
    c: ExprTV,
) -> Result<(ExprTV, (Seq<(Seq<Seq<char>>, u64)>, u64)), ErrorV>
    decreases c, 2int,
{
    match spec_te(b, sel, aud, c) {
        Err(x) => Err(x),
        Ok(t) => Ok((t.0, acc_step(a, (t.1, t.2)))),
    }
}

/// A list of children rewritten in order, with the costs and priority so far.
pub open spec fn te_seq(
    b: Seq<(ContextKey, PolicyBinding)>,
    sel: Seq<usize>,
    aud: Seq<Seq<char>>,
    a: (Seq<(Seq<Seq<char>>, u64)>, u64),
    s: Seq<ExprTV>,
) -> Result<(Seq<ExprTV>, (Seq<(Seq<Seq<char>>, u64)>, u64)), ErrorV>
    decreases s, 2int,
{
    if s.len() == 0 {
        Ok((Seq::empty(), a))
    } else {
        match te_seq(b, sel, aud, a, s.drop_last()) {
            Err(x) => Err(x),
            Ok((ts, a1)) => match spec_te(b, sel, aud, s.last()) {
                Err(x) => Err(x),
                Ok(t) => Ok((ts.push(t.0), acc_step(a1, (t.1, t.2)))),
            },
        }
    }
}

pub proof fn lemma_te_seq_err(
    b: Seq<(ContextKey, PolicyBinding)>,
    sel: Seq<usize>,
    aud: Seq<Seq<char>>,
    a: (Seq<(Seq<Seq<char>>, u64)>, u64),
    s: Seq<ExprTV>,
    n: int,
)
    requires
        0 <= n <= s.len(),
        te_seq(b, sel, aud, a, s.subrange(0, n)) is Err,
    ensures
        te_seq(b, sel, aud, a, s) == te_seq(b, sel, aud, a, s.subrange(0, n)),
    decreases s.len(),
{
    if n < s.len() {
        assert(s.drop_last().subrange(0, n) =~= s.subrange(0, n));
        lemma_te_seq_err(b, sel, aud, a, s.drop_last(), n);
    } else {
        assert(s.subrange(0, n) =~= s);
    }
}

/// Every child of `e` rewritten in order into the lifted node, or the first
/// failure.
pub open spec fn spec_te_children(
    b: Seq<(ContextKey, PolicyBinding)>,
    sel: Seq<usize>,
    aud: Seq<Seq<char>>,
    e: ExprTV,
) -> Result<(ExprTV, Seq<(Seq<Seq<char>>, u64)>, u64), ErrorV>
    decreases e, 0int,
{
    let a0 = (Seq::<(Seq<Seq<char>>, u64)>::empty(), 0u64);
    let root: Result<(ExprV, (Seq<(Seq<Seq<char>>, u64)>, u64)), ErrorV> = match e.root {
        ExprV::As { expr, alias } => match te1(b, sel, aud, a0, *expr) {
            Err(x) => Err(x),
            Ok((x, a)) => Ok((ExprV::As { expr: Box::new(x), alias }, a)),
        },
        ExprV::Function { name, args, distinct } => match te_seq(b, sel, aud, a0, args) {
            Err(x) => Err(x),
            Ok((xs, a)) => Ok((ExprV::Function { name, args: xs, distinct }, a)),
        },
        ExprV::IsNull(y) => match te1(b, sel, aud, a0, *y) {
            Err(x) => Err(x),
            Ok((x, a)) => Ok((ExprV::IsNull(Box::new(x)), a)),
        },
        ExprV::IsNotNull(y) => match te1(b, sel, aud, a0, *y) {
            Err(x) => Err(x),
            Ok((x, a)) => Ok((ExprV::IsNotNull(Box::new(x)), a)),
        },
        ExprV::InList { expr, list, negated } => match te1(b, sel, aud, a0, *expr) {
            Err(x) => Err(x),
            Ok((x, a1)) => match te_seq(b, sel, aud, a1, list) {
                Err(y) => Err(y),
                Ok((xs, a)) => Ok((ExprV::InList { expr: Box::new(x), list: xs, negated }, a)),
            },
        },
        ExprV::Between { expr, low, high, negated } => match te1(b, sel, aud, a0, *expr) {
            Err(x) => Err(x),
            Ok((x, a1)) => match te1(b, sel, aud, a1, *low) {
                Err(y) => Err(y),
                Ok((l, a2)) => match te1(b, sel, aud, a2, *high) {
                    Err(z) => Err(z),
                    Ok((h, a)) => Ok(
                        (
                            ExprV::Between {
                                expr: Box::new(x),
                                low: Box::new(l),
                                high: Box::new(h),
                                negated,
                            },
                            a,
                        ),
                    ),
                },
            },
        },
        ExprV::UnaryOp { op, expr } => match te1(b, sel, aud, a0, *expr) {
            Err(x) => Err(x),
            Ok((x, a)) => Ok((ExprV::UnaryOp { op, expr: Box::new(x) }, a)),
        },
        ExprV::BinaryOp { left, op, right } => match te1(b, sel, aud, a0, *left) {
            Err(x) => Err(x),
            Ok((l, a1)) => match te1(b, sel, aud, a1, *right) {
                Err(y) => Err(y),
                Ok((r, a)) => Ok((ExprV::BinaryOp { left: Box::new(l), op, right: Box::new(r) }, a)),
            },
        },
        ExprV::Case { conditions, results, else_result } => match te_seq(b, sel, aud, a0, conditions) {
            Err(x) => Err(x),
            Ok((cs, a1)) => match te_seq(b, sel, aud, a1, results) {
                Err(y) => Err(y),
                Ok((rs, a2)) => match else_result {
                    Some(z) => match te1(b, sel, aud, a2, *z) {
                        Err(w) => Err(w),
                        Ok((x, a)) => Ok(
                            (
                                ExprV::Case {
                                    conditions: cs,
                                    results: rs,
                                    else_result: Some(Box::new(x)),
                                },
                                a,
                            ),
                        ),
                    },
                    None => Ok((ExprV::Case { conditions: cs, results: rs, else_result: None }, a2)),
                },
            },
        },
        ExprV::Hash { algo, expr, salt } => match te1(b, sel, aud, a0, *expr) {
            Err(x) => Err(x),
            Ok((x, a)) => Ok((ExprV::Hash { algo, expr: Box::new(x), salt }, a)),
        },
        ExprV::Replace { expr, pattern, with } => match te1(b, sel, aud, a0, *expr) {
            Err(x) => Err(x),
            Ok((x, a1)) => match te1(b, sel, aud, a1, *pattern) {
                Err(y) => Err(y),
                Ok((p, a2)) => match te1(b, sel, aud, a2, *with) {
                    Err(z) => Err(z),
                    Ok((w, a)) => Ok(
                        (
                            ExprV::Replace {
                                expr: Box::new(x),
                                pattern: Box::new(p),
                                with: Box::new(w),
                            },
                            a,
                        ),
                    ),
                },
            },
        },
        ExprV::Noisy { expr, distribution } => match te1(b, sel, aud, a0, *expr) {
            Err(x) => Err(x),
            Ok((x, a)) => Ok((ExprV::Noisy { expr: Box::new(x), distribution }, a)),
        },
        _ => Err(ErrorV::NoMatch),
    };
    match root {
        Err(x) => Err(x),
        Ok((r, a)) => Ok((crate::policy::lifted(r), a.0, a.1)),
    }
}

impl<'a> ExprTransformer<'a> {
    pub fn new(bindings: &'a Context<PolicyBinding>, selected: Vec<usize>, audience: &'a ContextKey) -> (r: Self)
        ensures
            r.bindings == bindings,
            r.selected == selected,
            r.audience == audience,
    {
        ExprTransformer { bindings, selected, audience }
    }

    pub open spec fn wf(&self) -> bool {
        forall|i: int| 0 <= i < self.selected@.len() ==> (#[trigger] self.selected@[i]) < self.bindings@.len()
    }

    /// `p` is the priority of no rewrite, or that of a selected binding.
    pub open spec fn chosen_priority(&self, p: u64) -> bool {
        p == 0 || exists|i: int|
            0 <= i < self.selected@.len() && self.bindings@[#[trigger] self.selected@[i] as int].1.priority == p
    }

    fn sub(&self, c: &ExprT, cost: &mut Context<u64>, prio: &mut u64) -> (r: Result<ExprT, Error>)
        requires
            self.wf(),
            *old(prio) <= top_priority(self.bindings@),
            self.chosen_priority(*old(prio)),
        ensures
            *final(prio) <= top_priority(self.bindings@),
            self.chosen_priority(*final(prio)),
            match (r, te1(self.bindings.entries@, self.selected@, self.audience@, (old(cost)@, *old(prio)), c@)) {
                (Ok(x), Ok((v, a))) => x@ == v && final(cost)@ == a.0 && *final(prio) == a.1,
                (Err(e), Err(y)) => e@ == y,
                _ => false,
            },
            (r is Ok) ==> granted(r->Ok_0@, self.audience@),
        decreases c, 4int,
    {
        match self.transform_expr(c) {
            Ok(t) => {
                t.add_to(cost);
                if t.priority > *prio {
                    *prio = t.priority;
                }
                Ok(t.root)
            },
            Err(e) => Err(e),
        }
    }

    fn box_sub(&self, c: &Box<ExprT>, cost: &mut Context<u64>, prio: &mut u64) -> (r: Result<Box<ExprT>, Error>)
        requires
            self.wf(),
            *old(prio) <= top_priority(self.bindings@),
            self.chosen_priority(*old(prio)),
        ensures
            *final(prio) <= top_priority(self.bindings@),
            self.chosen_priority(*final(prio)),
            match (r, te1(self.bindings.entries@, self.selected@, self.audience@, (old(cost)@, *old(prio)), c@)) {
                (Ok(x), Ok((v, a))) => x@ == v && final(cost)@ == a.0 && *final(prio) == a.1,
                (Err(e), Err(y)) => e@ == y,
                _ => false,
            },
            (r is Ok) ==> granted(r->Ok_0@, self.audience@),
        decreases c, 5int,
    {
        match self.sub(&**c, cost, prio) {
            Ok(x) => Ok(Box::new(x)),
            Err(e) => Err(e),
        }
    }

    fn subs(&self, v: &Vec<ExprT>, cost: &mut Context<u64>, prio: &mut u64) -> (r: Result<Vec<ExprT>, Error>)
        requires
            self.wf(),
            *old(prio) <= top_priority(self.bindings@),
            self.chosen_priority(*old(prio)),
        ensures
            *final(prio) <= top_priority(self.bindings@),
            self.chosen_priority(*final(prio)),
            match (r, te_seq(self.bindings.entries@, self.selected@, self.audience@, (old(cost)@, *old(prio)), expr_views(v@))) {
                (Ok(x), Ok((v, a))) => expr_views(x@) == v && final(cost)@ == a.0 && *final(prio) == a.1,
                (Err(e), Err(y)) => e@ == y,
                _ => false,
            },
            (r is Ok) ==> forall|i: int| 0 <= i < expr_views(r->Ok_0@).len() ==> granted(#[trigger] expr_views(r->Ok_0@)[i], self.audience@),
            (r is Ok) ==> r->Ok_0@.len() == v@.len(),
        decreases v, 1int,
    {
        let ghost b = self.bindings.entries@;
        let ghost sel = self.selected@;
        let ghost aud = self.audience@;
        let ghost a0 = (cost@, *prio);
        let ghost vs = expr_views(v@);
        proof {
            lemma_expr_views(v@);
        }
        let mut out: Vec<ExprT> = Vec::new();
        let mut i: usize = 0;
        proof {
            assert(vs.subrange(0, 0) =~= Seq::<ExprTV>::empty());
            assert(expr_views(out@) =~= Seq::<ExprTV>::empty());
        }
        while i < v.len()
            invariant
                self.wf(),
                b == self.bindings.entries@,
                sel == self.selected@,
                aud == self.audience@,
                a0 == (old(cost)@, *old(prio)),
                vs == expr_views(v@),
                vs.len() == v@.len(),
                forall|q: int| 0 <= q < v@.len() ==> #[trigger] vs[q] == v@[q]@,
                *prio <= top_priority(self.bindings@),
                self.chosen_priority(*prio),
                i <= v@.len(),
                out@.len() == i,
                forall|q: int| 0 <= q < i ==> granted(#[trigger] out@[q]@, self.audience@),
                te_seq(b, sel, aud, a0, vs.subrange(0, i as int)) == Ok::<_, ErrorV>((expr_views(out@), (cost@, *prio))),
            decreases v@.len() - i,
        {
            proof {
                assert(decreases_to!(v => v[i as int]));
                let s2 = vs.subrange(0, i + 1);
                assert(s2.drop_last() =~= vs.subrange(0, i as int));
                assert(s2.last() == v@[i as int]@);
            }
            let ghost before = out@;
            match self.transform_expr(&v[i]) {
                Ok(t) => {
                    t.add_to(cost);
                    if t.priority > *prio {
                        *prio = t.priority;
                    }
                    out.push(t.root);
                    proof {
                        lemma_expr_views(out@);
                        lemma_expr_views(before);
                        assert(expr_views(out@) =~= expr_views(before).push(out@.last()@));
                    }
                },
                Err(e) => {
                    proof {
                        lemma_te_seq_err(b, sel, aud, a0, vs, i + 1);
                    }
                    return Err(e);
                },
            }
            i += 1;
        }
        proof {
            assert(vs.subrange(0, vs.len() as int) =~= vs);
            lemma_expr_views(out@);
        }
        Ok(out)
    }

    /// The proposals of the selected policies for `expr_t`, each granting
    /// the audience.
    fn propose(&self, expr_t: &ExprT) -> (r: Result<Vec<Transformed<ExprT>>, Error>)
        requires
            self.wf(),
        ensures
            match proposals(self.bindings.entries@, offers(self.bindings.entries@, self.selected@), expr_t@, self.audience@) {
                Err(x) => (r is Err) && r->Err_0@ == x,
                Ok(ps) => (r is Ok) && r->Ok_0@.map_values(|t: Transformed<ExprT>| tview(t)) == ps,
            },
            (r is Ok) ==> forall|q: int| 0 <= q < r->Ok_0@.len() ==> (#[trigger] r->Ok_0@[q]).priority <= top_priority(self.bindings@),
            (r is Ok) ==> forall|q: int| 0 <= q < r->Ok_0@.len() ==> self.chosen_priority((#[trigger] r->Ok_0@[q]).priority),
            (r is Ok) ==> forall|q: int| 0 <= q < r->Ok_0@.len() ==> granted((#[trigger] r->Ok_0@[q]).root@, self.audience@),
    {
        let ghost b = self.bindings.entries@;
        let ghost sel = self.selected@;
        let ghost all = offers(b, sel);
        let mut proposed: Vec<Transformed<ExprT>> = Vec::new();
        let mut i: usize = 0;
        proof {
            assert(sel.subrange(0, 0) =~= Seq::<usize>::empty());
            assert(proposed@.map_values(|t: Transformed<ExprT>| tview(t)) =~= Seq::<(ExprTV, Seq<(Seq<Seq<char>>, u64)>, u64)>::empty());
        }
        while i < self.selected.len()
            invariant
                self.wf(),
                b == self.bindings.entries@,
                sel == self.selected@,
                all == offers(b, sel),
                b.len() == self.bindings@.len(),
                i <= self.selected@.len(),
                proposals(b, offers(b, sel.subrange(0, i as int)), expr_t@, self.audience@) == Ok::<_, ErrorV>(proposed@.map_values(|t: Transformed<ExprT>| tview(t))),
                forall|q: int| 0 <= q < proposed@.len() ==> (#[trigger] proposed@[q]).priority <= top_priority(self.bindings@),
                forall|q: int| 0 <= q < proposed@.len() ==> self.chosen_priority((#[trigger] proposed@[q]).priority),
                forall|q: int| 0 <= q < proposed@.len() ==> granted((#[trigger] proposed@[q]).root@, self.audience@),
            decreases self.selected@.len() - i,
        {
            let bi = self.selected[i];
            let key = &self.bindings.entries[bi].0;
            let binding = &self.bindings.entries[bi].1;
            let ghost done = offers(b, sel.subrange(0, i as int));
            proof {
                lemma_top_priority(self.bindings@, bi as int);
                assert(binding@ == self.bindings@[bi as int].1);
                assert(key@ == self.bindings@[bi as int].0);
                let s2 = sel.subrange(0, i + 1);
                assert(s2.drop_last() =~= sel.subrange(0, i as int));
                assert(done + row(b, bi as int).subrange(0, 0) =~= done);
            }
            let mut j: usize = 0;
            while j < binding.policies.len()
                invariant
                    self.wf(),
                    b == self.bindings.entries@,
                    sel == self.selected@,
                    all == offers(b, sel),
                    b.len() == self.bindings@.len(),
                    i < self.selected@.len(),
                    bi == self.selected@[i as int],
                    done == offers(b, sel.subrange(0, i as int)),
                    key == &b[bi as int].0,
                    binding == &b[bi as int].1,
                    proposals(b, done + row(b, bi as int).subrange(0, j as int), expr_t@, self.audience@) == Ok::<_, ErrorV>(proposed@.map_values(|t: Transformed<ExprT>| tview(t))),
                    forall|q: int| 0 <= q < proposed@.len() ==> self.chosen_priority((#[trigger] proposed@[q]).priority),
                    bi < self.bindings@.len(),
                    binding@ == self.bindings@[bi as int].1,
                    binding.priority <= top_priority(self.bindings@),
                    j <= binding.policies@.len(),
                    forall|q: int| 0 <= q < proposed@.len() ==> (#[trigger] proposed@[q]).priority <= top_priority(self.bindings@),
                    forall|q: int| 0 <= q < proposed@.len() ==> granted((#[trigger] proposed@[q]).root@, self.audience@),
                decreases binding.policies@.len() - j,
            {
                let ghost os = done + row(b, bi as int).subrange(0, j + 1);
                let ghost before_ps = proposed@.map_values(|t: Transformed<ExprT>| tview(t));
                proof {
                    assert(os.drop_last() =~= done + row(b, bi as int).subrange(0, j as int));
                    assert(os.last() == (bi as int, j as int));
                    // the offers so far are a prefix of all offers
                    lemma_offers_prefix(b, sel, i + 1);
                    let s2 = sel.subrange(0, i + 1);
                    assert(s2.drop_last() =~= sel.subrange(0, i as int));
                    assert(offers(b, s2) == done + row(b, bi as int));
                    assert(all.subrange(0, os.len() as int) =~= os);
                }
                match binding.policies[j].transform_expr(expr_t) {
                    Ok(costly) => {
                        let mut root = costly.root;
                        let ghost before = root.board;
                        match grant_expr(&mut root.board, self.audience) {
                            Err(e) => {
                                proof {
                                    assert(offer(b, os.last(), expr_t@, self.audience@) == Err::<Option<(ExprTV, Seq<(Seq<Seq<char>>, u64)>, u64)>, ErrorV>(ErrorV::Validate(e@)));
                                    lemma_proposals_err(b, all, os.len() as int, expr_t@, self.audience@);
                                }
                                return Err(Error::Validate(e));
                            },
                            Ok(()) => {},
                        }
                        proof {
                            audience_monotonicity(keys_view(before->Ok_0.audience@), self.audience@);
                        }
                        if binding.is_in_budget(costly.cost) {
                            proposed.push(Transformed::new(root, key, costly.cost, binding.priority));
                            proof {
                                assert(proposed@.map_values(|t: Transformed<ExprT>| tview(t)) =~= before_ps.push(tview(proposed@.last())));
                            }
                        } else {
                            assert(proposed@.map_values(|t: Transformed<ExprT>| tview(t)) =~= before_ps);
                        }
                    },
                    Err(Error::NoMatch) => {},
                    Err(e) => {
                        proof {
                            lemma_proposals_err(b, all, os.len() as int, expr_t@, self.audience@);
                        }
                        return Err(e);
                    },
                }
                j += 1;
            }
            proof {
                assert(row(b, bi as int).subrange(0, j as int) =~= row(b, bi as int));
                let s2 = sel.subrange(0, i + 1);
                assert(s2.drop_last() =~= sel.subrange(0, i as int));
            }
            i += 1;
        }
        proof {
            assert(sel.subrange(0, sel.len() as int) =~= sel);
        }
        Ok(proposed)
    }

    /// Rewrites `expr_t` by the best proposal of the selected policies or,
    /// when none applies, rewrites each of its children.
    pub fn transform_expr(&self, expr_t: &ExprT) -> (r: Result<Transformed<ExprT>, Error>)
        requires
            self.wf(),
        ensures
            (r is Ok) ==> r->Ok_0.priority <= top_priority(self.bindings@),
            (r is Ok) ==> self.chosen_priority(r->Ok_0.priority),
            (r is Ok) ==> granted(r->Ok_0.root@, self.audience@),
            match proposals(self.bindings.entries@, offers(self.bindings.entries@, self.selected@), expr_t@, self.audience@) {
                Err(x) => (r is Err) && r->Err_0@ == x,
                Ok(ps) => ps.len() > 0 ==> (r is Ok) && exists|j: int|
                    is_best(pv_priorities(ps), pv_totals(ps), j) && tview(r->Ok_0) == #[trigger] ps[j],
            },
            (expr_t.root is Column) || (expr_t.root is Literal) ==> match proposals(self.bindings.entries@, offers(self.bindings.entries@, self.selected@), expr_t@, self.audience@) {
                Ok(ps) => ps.len() == 0 ==> (r is Err) && r->Err_0@ == ErrorV::NoMatch,
                Err(_) => true,
            },
            match (r, spec_te(self.bindings.entries@, self.selected@, self.audience@, expr_t@)) {
                (Ok(t), Ok(v)) => tview(t) == v,
                (Err(e), Err(x)) => e@ == x,
                _ => false,
            },
        decreases expr_t, 3int,
    {
        let proposed = match self.propose(expr_t) {
            Ok(p) => p,
            Err(e) => {
                return Err(e);
            },
        };
        let ghost cands = proposed@;
        match best_candidate(proposed) {
            Some(best) => {
                proof {
                    let ps = cands.map_values(|t: Transformed<ExprT>| tview(t));
                    assert(pv_priorities(ps) =~= priorities(cands));
                    assert(pv_totals(ps) =~= totals(cands));
                    let j = choose|j: int| is_best(priorities(cands), totals(cands), j) && best == #[trigger] cands[j];
                    assert(tview(best) == ps[j]);
                    let k = choose|k: int| is_best(pv_priorities(ps), pv_totals(ps), k);
                    lemma_best_unique(pv_priorities(ps), pv_totals(ps), j, k);
                }
                return Ok(best);
            },
            None => {},
        }
        if expr_t.is_leaf() {
            return Err(Error::NoMatch);
        }
        self.transform_children(expr_t)
    }

    /// Rewrites each child of `expr_t`, in order; every child must be rewritten.
    #[verifier::rlimit(100)]
    #[verifier::spinoff_prover]
    fn transform_children(&self, expr_t: &ExprT) -> (r: Result<Transformed<ExprT>, Error>)
        requires
            self.wf(),
            !(expr_t.root is Column),
            !(expr_t.root is Literal),
        ensures
            (r is Ok) ==> r->Ok_0.priority <= top_priority(self.bindings@),
            (r is Ok) ==> self.chosen_priority(r->Ok_0.priority),
            (r is Ok) ==> granted(r->Ok_0.root@, self.audience@),
            match (r, spec_te_children(self.bindings.entries@, self.selected@, self.audience@, expr_t@)) {
                (Ok(t), Ok(v)) => tview(t) == v,
                (Err(e), Err(x)) => e@ == x,
                _ => false,
            },
        decreases expr_t, 2int,
    {
        match &expr_t.root {
            Expr::Function { .. } | Expr::InList { .. } | Expr::Case { .. } => self.list_children(expr_t),
            Expr::Between { .. } | Expr::BinaryOp { .. } | Expr::Replace { .. } => self.many_children(expr_t),
            _ => self.one_child(expr_t),
        }
    }

    /// Rewrites the children of a node that holds lists of them.
    #[verifier::rlimit(100)]
    #[verifier::spinoff_prover]
    fn list_children(&self, expr_t: &ExprT) -> (r: Result<Transformed<ExprT>, Error>)
        requires
            self.wf(),
            !(expr_t.root is Column),
            !(expr_t.root is Literal),
            (expr_t.root is Function) || (expr_t.root is InList) || (expr_t.root is Case),
        ensures
            (r is Ok) ==> r->Ok_0.priority <= top_priority(self.bindings@),
            (r is Ok) ==> self.chosen_priority(r->Ok_0.priority),
            (r is Ok) ==> granted(r->Ok_0.root@, self.audience@),
            match (r, spec_te_children(self.bindings.entries@, self.selected@, self.audience@, expr_t@)) {
                (Ok(t), Ok(v)) => tview(t) == v,
                (Err(e), Err(x)) => e@ == x,
                _ => false,
            },
        decreases expr_t, 1int,
    {
        let mut cost: Context<u64> = Context::new();
        let mut prio: u64 = 0;
        proof {
            assert(decreases_to!(expr_t => expr_t.root));
            assert(cost@ =~= Seq::<(Seq<Seq<char>>, u64)>::empty());
        }
        let root = match &expr_t.root {
            Expr::Function { name, args, distinct } => {
                proof {
                    assert(decreases_to!(expr_t.root => expr_t.root->args));
                }
                let a2 = match self.subs(args, &mut cost, &mut prio) {
                    Ok(x) => x,
                    Err(e) => {
                        return Err(e);
                    },
                };
                Expr::Function { name: *name, args: a2, distinct: *distinct }
            },
            Expr::InList { expr, list, negated } => {
                proof {
                    assert(decreases_to!(expr_t.root => expr_t.root->list));
                }
                let e2 = match self.box_sub(expr, &mut cost, &mut prio) {
                    Ok(x) => x,
                    Err(e) => {
                        return Err(e);
                    },
                };
                let l2 = match self.subs(list, &mut cost, &mut prio) {
                    Ok(x) => x,
                    Err(e) => {
                        return Err(e);
                    },
                };
                Expr::InList { expr: e2, list: l2, negated: *negated }
            },
            Expr::Case { conditions, results, else_result } => {
                proof {
                    assert(decreases_to!(expr_t.root => expr_t.root->conditions));
                    assert(decreases_to!(expr_t.root => expr_t.root->results));
                }
                let c2 = match self.subs(conditions, &mut cost, &mut prio) {
                    Ok(x) => x,
                    Err(e) => {
                        return Err(e);
                    },
                };
                let r2 = match self.subs(results, &mut cost, &mut prio) {
                    Ok(x) => x,
                    Err(e) => {
                        return Err(e);
                    },
                };
                let x2 = match else_result {
                    Some(x) => {
                        let x2 = match self.box_sub(x, &mut cost, &mut prio) {
                    Ok(x) => x,
                    Err(e) => {
                        return Err(e);
                    },
                };
                        Some(x2)
                    },
                    None => None,
                };
                let node = Expr::Case { conditions: c2, results: r2, else_result: x2 };
                proof {
                    let rv = node.view();
                    lemma_expr_views(c2@);
                    lemma_expr_views(r2@);
                    let nc = c2@.len() as int;
                    let nr = r2@.len() as int;
                    assert forall|i: int| 0 <= i < children(rv).len() implies granted(#[trigger] children(rv)[i], self.audience@) by {
                        if i < nc {
                            assert(children(rv)[i] == expr_views(c2@)[i]);
                        } else if i < nc + nr {
                            assert(children(rv)[i] == expr_views(r2@)[i - nc]);
                        }
                    }
                }
                node
            },
            _ => {
                return Err(Error::NoMatch);
            },
        };
        proof {
            let rv = root.view();
            assert forall|i: int| 0 <= i < children(rv).len() implies granted(#[trigger] children(rv)[i], self.audience@) by {
                match rv {
                    ExprV::InList { expr, list, .. } => {
                        if i > 0 {
                            assert(children(rv)[i] == list[i - 1]);
                        }
                    },
                    _ => {},
                }
            }
            lemma_lift_granted(rv, self.audience@);
        }
        let root = ExprT::lift(root);
        Ok(Transformed { root, cost, priority: prio })
    }

    /// Rewrites the children of a node with two or three of them.
    #[verifier::rlimit(100)]
    #[verifier::spinoff_prover]
    fn many_children(&self, expr_t: &ExprT) -> (r: Result<Transformed<ExprT>, Error>)
        requires
            self.wf(),
            !(expr_t.root is Column),
            !(expr_t.root is Literal),
            (expr_t.root is Between) || (expr_t.root is BinaryOp) || (expr_t.root is Replace),
        ensures
            (r is Ok) ==> r->Ok_0.priority <= top_priority(self.bindings@),
            (r is Ok) ==> self.chosen_priority(r->Ok_0.priority),
            (r is Ok) ==> granted(r->Ok_0.root@, self.audience@),
            match (r, spec_te_children(self.bindings.entries@, self.selected@, self.audience@, expr_t@)) {
                (Ok(t), Ok(v)) => tview(t) == v,
                (Err(e), Err(x)) => e@ == x,
                _ => false,
            },
        decreases expr_t, 1int,
    {
        let mut cost: Context<u64> = Context::new();
        let mut prio: u64 = 0;
        proof {
            assert(decreases_to!(expr_t => expr_t.root));
            assert(cost@ =~= Seq::<(Seq<Seq<char>>, u64)>::empty());
        }
        let root = match &expr_t.root {
            Expr::Between { expr, low, high, negated } => {
                let e2 = match self.box_sub(expr, &mut cost, &mut prio) {
                    Ok(x) => x,
                    Err(e) => {
                        return Err(e);
                    },
                };
                let l2 = match self.box_sub(low, &mut cost, &mut prio) {
                    Ok(x) => x,
                    Err(e) => {
                        return Err(e);
                    },
                };
                let h2 = match self.box_sub(high, &mut cost, &mut prio) {
                    Ok(x) => x,
                    Err(e) => {
                        return Err(e);
                    },
                };
                Expr::Between { expr: e2, low: l2, high: h2, negated: *negated }
            },
            Expr::BinaryOp { left, op, right } => {
                let l2 = match self.box_sub(left, &mut cost, &mut prio) {
                    Ok(x) => x,
                    Err(e) => {
                        return Err(e);
                    },
                };
                let r2 = match self.box_sub(right, &mut cost, &mut prio) {
                    Ok(x) => x,
                    Err(e) => {
                        return Err(e);
                    },
                };
                Expr::BinaryOp { left: l2, op: *op, right: r2 }
            },
            Expr::Replace { expr, pattern, with } => {
                let e2 = match self.box_sub(expr, &mut cost, &mut prio) {
                    Ok(x) => x,
                    Err(e) => {
                        return Err(e);
                    },
                };
                let p2 = match self.box_sub(pattern, &mut cost, &mut prio) {
                    Ok(x) => x,
                    Err(e) => {
                        return Err(e);
                    },
                };
                let w2 = match self.box_sub(with, &mut cost, &mut prio) {
                    Ok(x) => x,
                    Err(e) => {
                        return Err(e);
                    },
                };
                Expr::Replace { expr: e2, pattern: p2, with: w2 }
            },
            _ => {
                return Err(Error::NoMatch);
            },
        };
        proof {
            let rv = root.view();
            assert forall|i: int| 0 <= i < children(rv).len() implies granted(#[trigger] children(rv)[i], self.audience@) by {
                match rv {
                    ExprV::InList { expr, list, .. } => {
                        if i > 0 {
                            assert(children(rv)[i] == list[i - 1]);
                        }
                    },
                    _ => {},
                }
            }
            lemma_lift_granted(rv, self.audience@);
        }
        let root = ExprT::lift(root);
        Ok(Transformed { root, cost, priority: prio })
    }

    /// Rewrites the child of a node with one of them.
    #[verifier::rlimit(100)]
    #[verifier::spinoff_prover]
    fn one_child(&self, expr_t: &ExprT) -> (r: Result<Transformed<ExprT>, Error>)
        requires
            self.wf(),
            !(expr_t.root is Column),
            !(expr_t.root is Literal),
            !(expr_t.root is Function),
            !(expr_t.root is InList),
            !(expr_t.root is Case),
            !(expr_t.root is Between),
            !(expr_t.root is BinaryOp),
            !(expr_t.root is Replace),
        ensures
            (r is Ok) ==> r->Ok_0.priority <= top_priority(self.bindings@),
            (r is Ok) ==> self.chosen_priority(r->Ok_0.priority),
            (r is Ok) ==> granted(r->Ok_0.root@, self.audience@),
            match (r, spec_te_children(self.bindings.entries@, self.selected@, self.audience@, expr_t@)) {
                (Ok(t), Ok(v)) => tview(t) == v,
                (Err(e), Err(x)) => e@ == x,
                _ => false,
            },
        decreases expr_t, 1int,
    {
        let mut cost: Context<u64> = Context::new();
        let mut prio: u64 = 0;
        proof {
            assert(decreases_to!(expr_t => expr_t.root));
            assert(cost@ =~= Seq::<(Seq<Seq<char>>, u64)>::empty());
        }
        let root = match &expr_t.root {
            Expr::As { expr, alias } => {
                let e2 = match self.box_sub(expr, &mut cost, &mut prio) {
                    Ok(x) => x,
                    Err(e) => {
                        return Err(e);
                    },
                };
                Expr::As { expr: e2, alias: alias.clone() }
            },
            Expr::IsNull(x) => {
                let e2 = match self.box_sub(x, &mut cost, &mut prio) {
                    Ok(x) => x,
                    Err(e) => {
                        return Err(e);
                    },
                };
                Expr::IsNull(e2)
            },
            Expr::IsNotNull(x) => {
                let e2 = match self.box_sub(x, &mut cost, &mut prio) {
                    Ok(x) => x,
                    Err(e) => {
                        return Err(e);
                    },
                };
                Expr::IsNotNull(e2)
            },
            Expr::UnaryOp { op, expr } => {
                let e2 = match self.box_sub(expr, &mut cost, &mut prio) {
                    Ok(x) => x,
                    Err(e) => {
                        return Err(e);
                    },
                };
                Expr::UnaryOp { op: *op, expr: e2 }
            },
            Expr::Hash { algo, expr, salt } => {
                let e2 = match self.box_sub(expr, &mut cost, &mut prio) {
                    Ok(x) => x,
                    Err(e) => {
                        return Err(e);
                    },
                };
                Expr::Hash { algo: *algo, expr: e2, salt: salt.clone() }
            },
            Expr::Noisy { expr, distribution } => {
                let e2 = match self.box_sub(expr, &mut cost, &mut prio) {
                    Ok(x) => x,
                    Err(e) => {
                        return Err(e);
                    },
                };
                Expr::Noisy { expr: e2, distribution: *distribution }
            },
            _ => {
                return Err(Error::NoMatch);
            },
        };
        proof {
            let rv = root.view();
            assert forall|i: int| 0 <= i < children(rv).len() implies granted(#[trigger] children(rv)[i], self.audience@) by {
                match rv {
                    ExprV::InList { expr, list, .. } => {
                        if i > 0 {
                            assert(children(rv)[i] == list[i - 1]);
                        }
                    },
                    _ => {},
                }
            }
            lemma_lift_granted(rv, self.audience@);
        }
        let root = ExprT::lift(root);
        Ok(Transformed { root, cost, priority: prio })
    }
}


/// A successful annotation of `t` that `audience` may see.
pub open spec fn rel_granted(t: crate::rel::RelTV, audience: Seq<Seq<char>>) -> bool {
    (t.board is Ok) && crate::rel::tmeta(t).audience.contains(audience)
}

/// A node whose sub-relations are all tables.
pub open spec fn over_tables(t: crate::rel::RelTV) -> bool {
    !(t.root is Table) && forall|i: int|
        0 <= i < crate::rel::rel_children(t.root).len() ==> (#[trigger] crate::rel::rel_children(t.root)[i]).root is Table
}

fn is_table(t: &RelT) -> (r: bool)
    ensures
        r == (t@.root is Table),
{
    match &t.root {
        Rel::Table(_) => true,
        _ => false,
    }
}

/// Whether every sub-relation of `t` is a table.
fn subs_are_tables(t: &RelT) -> (r: bool)
    ensures
        r == over_tables(t@),
{
    let ghost ch = crate::rel::rel_children(t@.root);
    match &t.root {
        Rel::Table(_) => false,
        Rel::WithAlias { from, .. } | Rel::Projection { from, .. } | Rel::Aggregation { from, .. }
        | Rel::Selection { from, .. } | Rel::Offset { from, .. } | Rel::Limit { from, .. }
        | Rel::OrderBy { from, .. } | Rel::Distinct { from } => {
            assert(ch.len() == 1 && ch[0] == from@);
            is_table(from)
        },
        Rel::Join { left, right, .. } | Rel::SetOperation { left, right, .. } => {
            assert(ch.len() == 2 && ch[0] == left@ && ch[1] == right@);
            let r = is_table(left) && is_table(right);
            proof {
                if !r {
                    if !(left@.root is Table) {
                        assert(!(ch[0].root is Table));
                    } else {
                        assert(!(ch[1].root is Table));
                    }
                }
            }
            r
        },
    }
}

/// A relational proposal as a value: rewritten tree, costs, priority.
pub open spec fn rview(t: Transformed<RelT>) -> (crate::rel::RelTV, Seq<(Seq<Seq<char>>, u64)>, u64) {
    (t.root@, t.cost@, t.priority)
}

/// The (binding, policy) positions offered a relation, binding by binding.
pub open spec fn rel_offers(b: Seq<(ContextKey, PolicyBinding)>, sel: Seq<int>) -> Seq<(int, int)>
    decreases sel.len(),
{
    if sel.len() == 0 {
        Seq::empty()
    } else {
        rel_offers(b, sel.drop_last()) + row(b, sel.last())
    }
}

/// A projection straight over a table.
pub open spec fn leaf_projection(t: crate::rel::RelTV) -> bool {
    match t.root {
        crate::rel::RelV::Projection { from, .. } => from.root is Table,
        _ => false,
    }
}

pub open spec fn rv_priorities(ps: Seq<(crate::rel::RelTV, Seq<(Seq<Seq<char>>, u64)>, u64)>) -> Seq<u64> {
    ps.map_values(|p: (crate::rel::RelTV, Seq<(Seq<Seq<char>>, u64)>, u64)| p.2)
}

pub open spec fn rv_totals(ps: Seq<(crate::rel::RelTV, Seq<(Seq<Seq<char>>, u64)>, u64)>) -> Seq<u64> {
    ps.map_values(|p: (crate::rel::RelTV, Seq<(Seq<Seq<char>>, u64)>, u64)| saturate(total(p.1)))
}

/// What one offer gives for the relation `rel`.
pub open spec fn rel_offer(
    b: Seq<(ContextKey, PolicyBinding)>,
    o: (int, int),
    rel: crate::rel::RelTV,
    schema: Seq<(Seq<Seq<char>>, crate::rel::TableMetaV)>,
    audience: Seq<Seq<char>>,
) -> Result<Option<(crate::rel::RelTV, Seq<(Seq<Seq<char>>, u64)>, u64)>, ErrorV> {
    let binding = b[o.0].1;
    match crate::privacy::spec_policy_rel(binding.policies@[o.1], rel, schema) {
        Err(ErrorV::NoMatch) => Ok(None),
        Err(x) => Err(x),
        Ok((root, cost)) => match root.board {
            Err(ve) => Err(ErrorV::Validate(ve)),
            Ok(m) => if crate::policy::spec_in_budget(binding@.budget, cost) {
                Ok(
                    Some(
                        (
                            crate::rel::RelTV {
                                root: root.root,
                                board: Ok(crate::rel::TableMetaV { audience: with_audience(m.audience, audience), ..m }),
                            },
                            seq![(b[o.0].0@, cost)],
                            binding.priority,
                        ),
                    ),
                )
            } else {
                Ok(None)
            },
        },
    }
}

/// The proposals of the offers `os` for a relation; the first error ends them.
pub open spec fn rel_proposals(
    b: Seq<(ContextKey, PolicyBinding)>,
    os: Seq<(int, int)>,
    rel: crate::rel::RelTV,
    schema: Seq<(Seq<Seq<char>>, crate::rel::TableMetaV)>,
    audience: Seq<Seq<char>>,
) -> Result<Seq<(crate::rel::RelTV, Seq<(Seq<Seq<char>>, u64)>, u64)>, ErrorV>
    decreases os.len(),
{
    if os.len() == 0 {
        Ok(Seq::empty())
    } else {
        match rel_proposals(b, os.drop_last(), rel, schema, audience) {
            Err(x) => Err(x),
            Ok(ps) => match rel_offer(b, os.last(), rel, schema, audience) {
                Err(x) => Err(x),
                Ok(None) => Ok(ps),
                Ok(Some(p)) => Ok(ps.push(p)),
            },
        }
    }
}

pub proof fn lemma_rel_proposals_err(
    b: Seq<(ContextKey, PolicyBinding)>,
    os: Seq<(int, int)>,
    n: int,
    rel: crate::rel::RelTV,
    schema: Seq<(Seq<Seq<char>>, crate::rel::TableMetaV)>,
    audience: Seq<Seq<char>>,
)
    requires
        0 <= n <= os.len(),
        rel_proposals(b, os.subrange(0, n), rel, schema, audience) is Err,
    ensures
        rel_proposals(b, os, rel, schema, audience) == rel_proposals(b, os.subrange(0, n), rel, schema, audience),
    decreases os.len(),
{
    if n < os.len() {
        assert(os.drop_last().subrange(0, n) =~= os.subrange(0, n));
        lemma_rel_proposals_err(b, os.drop_last(), n, rel, schema, audience);
    } else {
        assert(os.subrange(0, n) =~= os);
    }
}

pub proof fn lemma_rel_offers_prefix(b: Seq<(ContextKey, PolicyBinding)>, sel: Seq<int>, i: int)
    requires
        0 <= i <= sel.len(),
    ensures
        rel_offers(b, sel.subrange(0, i)).len() <= rel_offers(b, sel).len(),
        rel_offers(b, sel).subrange(0, rel_offers(b, sel.subrange(0, i)).len() as int) == rel_offers(b, sel.subrange(0, i)),
    decreases sel.len(),
{
    if i < sel.len() {
        assert(sel.drop_last().subrange(0, i) =~= sel.subrange(0, i));
        lemma_rel_offers_prefix(b, sel.drop_last(), i);
        let p = rel_offers(b, sel.subrange(0, i));
        let d = rel_offers(b, sel.drop_last());
        assert(rel_offers(b, sel).subrange(0, p.len() as int) =~= d.subrange(0, p.len() as int));
    } else {
        assert(sel.subrange(0, i) =~= sel);
        assert(rel_offers(b, sel).subrange(0, rel_offers(b, sel).len() as int) =~= rel_offers(b, sel));
    }
}

/// The bindings selected for the key `k`, as positions.
pub open spec fn filter_sel(bv: Seq<(Seq<Seq<char>>, PolicyBindingV)>, k: Seq<Seq<char>>) -> Seq<usize> {
    spec_filter(bv, k).map_values(|i: int| i as usize)
}

/// The first `n` attributes of a projection over a table, each rewritten by
/// the expression transformer or kept when nothing applies to it, with the
/// costs and highest priority of the rewrites.
pub open spec fn leaf_attrs(
    b: Seq<(ContextKey, PolicyBinding)>,
    sel: Seq<usize>,
    aud: Seq<Seq<char>>,
    attrs: Seq<ExprTV>,
    n: nat,
) -> Result<(Seq<ExprTV>, (Seq<(Seq<Seq<char>>, u64)>, u64)), ErrorV>
    decreases n,
{
    if n == 0 || n > attrs.len() {
        Ok((Seq::empty(), (Seq::empty(), 0u64)))
    } else {
        match leaf_attrs(b, sel, aud, attrs, (n - 1) as nat) {
            Err(x) => Err(x),
            Ok((xs, a)) => match spec_te(b, sel, aud, attrs[n - 1]) {
                Ok(t) => Ok((xs.push(t.0), acc_step(a, (t.1, t.2)))),
                Err(ErrorV::NoMatch) => Ok((xs.push(attrs[n - 1]), a)),
                Err(x) => Err(x),
            },
        }
    }
}

proof fn lemma_leaf_attrs_err(
    b: Seq<(ContextKey, PolicyBinding)>,
    sel: Seq<usize>,
    aud: Seq<Seq<char>>,
    attrs: Seq<ExprTV>,
    n: nat,
    m: nat,
)
    requires
        n <= m <= attrs.len(),
        leaf_attrs(b, sel, aud, attrs, n) is Err,
    ensures
        leaf_attrs(b, sel, aud, attrs, m) == leaf_attrs(b, sel, aud, attrs, n),
    decreases m - n,
{
    if m > n {
        lemma_leaf_attrs_err(b, sel, aud, attrs, n, (m - 1) as nat);
    }
}

/// The proposal for a projection of `attrs` over the table `from` named
/// `k`: the projection of the rewritten attributes, proposed when the
/// audience may see it.
pub open spec fn spec_leaf(
    b: Seq<(ContextKey, PolicyBinding)>,
    bv: Seq<(Seq<Seq<char>>, PolicyBindingV)>,
    aud: Seq<Seq<char>>,
    attrs: Seq<ExprTV>,
    from: RelTV,
    k: Seq<Seq<char>>,
) -> Result<Seq<(RelTV, Seq<(Seq<Seq<char>>, u64)>, u64)>, ErrorV> {
    match leaf_attrs(b, filter_sel(bv, k), aud, attrs, attrs.len()) {
        Err(x) => Err(x),
        Ok((xs, a)) => {
            let node = crate::privacy::rel_lifted(
                crate::rel::RelV::Projection { attributes: xs, from: Box::new(from) },
            );
            match node.board {
                Err(e) => Err(ErrorV::Validate(e)),
                Ok(m) => if m.audience.contains(aud) {
                    Ok(seq![(node, a.0, a.1)])
                } else {
                    Ok(Seq::empty())
                },
            }
        },
    }
}

/// The proposals made at the root of `t`.
pub open spec fn tr_proposals(
    b: Seq<(ContextKey, PolicyBinding)>,
    bv: Seq<(Seq<Seq<char>>, PolicyBindingV)>,
    aud: Seq<Seq<char>>,
    schema: Seq<(Seq<Seq<char>>, crate::rel::TableMetaV)>,
    t: RelTV,
) -> Result<Seq<(RelTV, Seq<(Seq<Seq<char>>, u64)>, u64)>, ErrorV> {
    let other = match t.board {
        Err(x) => Err(ErrorV::Validate(x)),
        Ok(m) => match m.provenance {
            Some(p) => rel_proposals(b, rel_offers(b, spec_filter(bv, p)), t, schema, aud),
            None => Ok(Seq::empty()),
        },
    };
    match t.root {
        crate::rel::RelV::Projection { attributes, from } => match from.root {
            crate::rel::RelV::Table(k) => spec_leaf(b, bv, aud, attributes, *from, k),
            _ => other,
        },
        _ => other,
    }
}

/// What the relation transformer gives for `t`: the best proposal at its
/// root; `NoMatch` for a table or a node over tables alone; otherwise every
/// sub-relation rewritten in order, their costs added and their highest
/// priority, the first failure of a sub-relation failing the whole.
pub open spec fn spec_tr(
    b: Seq<(ContextKey, PolicyBinding)>,
    bv: Seq<(Seq<Seq<char>>, PolicyBindingV)>,
    aud: Seq<Seq<char>>,
    schema: Seq<(Seq<Seq<char>>, crate::rel::TableMetaV)>,
    t: RelTV,
) -> Result<(RelTV, Seq<(Seq<Seq<char>>, u64)>, u64), ErrorV>
    decreases t, 1int,
{
    match tr_proposals(b, bv, aud, schema, t) {
        Err(x) => Err(x),
        Ok(ps) => if ps.len() > 0 {
            Ok(ps[choose|j: int| is_best(rv_priorities(ps), rv_totals(ps), j)])
        } else if (t.root is Table) || over_tables(t) {
            Err(ErrorV::NoMatch)
        } else {
            spec_tr_children(b, bv, aud, schema, t)
        },
    }
}

/// One sub-relation rewritten, with the costs and priority so far.
pub open spec fn tr1(
    b: Seq<(ContextKey, PolicyBinding)>,
    bv: Seq<(Seq<Seq<char>>, PolicyBindingV)>,
    aud: Seq<Seq<char>>,
    schema: Seq<(Seq<Seq<char>>, crate::rel::TableMetaV)>,
    a: (Seq<(Seq<Seq<char>>, u64)>, u64),
    c: RelTV,
) -> Result<(RelTV, (Seq<(Seq<Seq<char>>, u64)>, u64)), ErrorV>
    decreases c, 2int,
{
    match spec_tr(b, bv, aud, schema, c) {
        Err(x) => Err(x),
        Ok(t) => Ok((t.0, acc_step(a, (t.1, t.2)))),
    }
}

/// Every sub-relation of `t` rewritten in order into the lifted node, its
/// expressions kept, or the first failure.
pub open spec fn spec_tr_children(
    b: Seq<(ContextKey, PolicyBinding)>,
    bv: Seq<(Seq<Seq<char>>, PolicyBindingV)>,
    aud: Seq<Seq<char>>,
    schema: Seq<(Seq<Seq<char>>, crate::rel::TableMetaV)>,
    t: RelTV,
) -> Result<(RelTV, Seq<(Seq<Seq<char>>, u64)>, u64), ErrorV>
    decreases t, 0int,
{
    let a0 = (Seq::<(Seq<Seq<char>>, u64)>::empty(), 0u64);
    let root: Result<(crate::rel::RelV, (Seq<(Seq<Seq<char>>, u64)>, u64)), ErrorV> = match t.root {
        crate::rel::RelV::WithAlias { from, alias } => match tr1(b, bv, aud, schema, a0, *from) {
            Err(x) => Err(x),
            Ok((f, a)) => Ok((crate::rel::RelV::WithAlias { from: Box::new(f), alias }, a)),
        },
        crate::rel::RelV::Projection { attributes, from } => match tr1(b, bv, aud, schema, a0, *from) {
            Err(x) => Err(x),
            Ok((f, a)) => Ok((crate::rel::RelV::Projection { attributes, from: Box::new(f) }, a)),
        },
        crate::rel::RelV::Aggregation { attributes, group_by, from } => match tr1(b, bv, aud, schema, a0, *from) {
            Err(x) => Err(x),
            Ok((f, a)) => Ok((crate::rel::RelV::Aggregation { attributes, group_by, from: Box::new(f) }, a)),
        },
        crate::rel::RelV::Selection { from, where_ } => match tr1(b, bv, aud, schema, a0, *from) {
            Err(x) => Err(x),
            Ok((f, a)) => Ok((crate::rel::RelV::Selection { from: Box::new(f), where_ }, a)),
        },
        crate::rel::RelV::Offset { from, n } => match tr1(b, bv, aud, schema, a0, *from) {
            Err(x) => Err(x),
            Ok((f, a)) => Ok((crate::rel::RelV::Offset { from: Box::new(f), n }, a)),
        },
        crate::rel::RelV::Limit { from, n } => match tr1(b, bv, aud, schema, a0, *from) {
            Err(x) => Err(x),
            Ok((f, a)) => Ok((crate::rel::RelV::Limit { from: Box::new(f), n }, a)),
        },
        crate::rel::RelV::OrderBy { from, keys } => match tr1(b, bv, aud, schema, a0, *from) {
            Err(x) => Err(x),
            Ok((f, a)) => Ok((crate::rel::RelV::OrderBy { from: Box::new(f), keys }, a)),
        },
        crate::rel::RelV::Distinct { from } => match tr1(b, bv, aud, schema, a0, *from) {
            Err(x) => Err(x),
            Ok((f, a)) => Ok((crate::rel::RelV::Distinct { from: Box::new(f) }, a)),
        },
        crate::rel::RelV::Join { left, right, kind, on } => match tr1(b, bv, aud, schema, a0, *left) {
            Err(x) => Err(x),
            Ok((l, a1)) => match tr1(b, bv, aud, schema, a1, *right) {
                Err(y) => Err(y),
                Ok((r, a)) => Ok((crate::rel::RelV::Join { left: Box::new(l), right: Box::new(r), kind, on }, a)),
            },
        },
        crate::rel::RelV::SetOperation { left, right, op } => match tr1(b, bv, aud, schema, a0, *left) {
            Err(x) => Err(x),
            Ok((l, a1)) => match tr1(b, bv, aud, schema, a1, *right) {
                Err(y) => Err(y),
                Ok((r, a)) => Ok((crate::rel::RelV::SetOperation { left: Box::new(l), right: Box::new(r), op }, a)),
            },
        },
        _ => Err(ErrorV::NoMatch),
    };
    match root {
        Err(x) => Err(x),
        Ok((r, a)) => Ok((crate::privacy::rel_lifted(r), a.0, a.1)),
    }
}

/// Rewrites relations under policy bindings for one audience, against a
/// schema of tables.
pub struct RelTransformer<'a> {
    pub bindings: &'a Context<PolicyBinding>,
    pub audience: &'a ContextKey,
    pub schema: &'a Context<TableMeta>,
}

impl<'a> RelTransformer<'a> {
    pub fn new(bindings: &'a Context<PolicyBinding>, audience: &'a ContextKey, schema: &'a Context<TableMeta>) -> (r: Self)
        ensures
            r.bindings == bindings,
            r.audience == audience,
            r.schema == schema,
    {
        RelTransformer { bindings, audience, schema }
    }

    /// The positions of the bindings that apply to `context_key`.
    pub fn filter_bindings(&self, context_key: &ContextKey) -> (r: Vec<usize>)
        ensures
            r@.map_values(|i: usize| i as int) == spec_filter(self.bindings@, context_key@),
            forall|i: int| 0 <= i < r@.len() ==> r@[i] < self.bindings@.len(),
    {
        filter_bindings(self.bindings, context_key)
    }

    fn sub(&self, c: &Box<RelT>, cost: &mut Context<u64>, prio: &mut u64) -> (r: Result<Box<RelT>, Error>)
        requires
            *old(prio) <= top_priority(self.bindings@),
            bound_priority(self.bindings@, *old(prio)),
        ensures
            *final(prio) <= top_priority(self.bindings@),
            bound_priority(self.bindings@, *final(prio)),
            (c.root is Table) ==> (r is Err),
            match (r, tr1(self.bindings.entries@, self.bindings@, self.audience@, self.schema@, (old(cost)@, *old(prio)), c@)) {
                (Ok(x), Ok((v, a))) => x@ == v && final(cost)@ == a.0 && *final(prio) == a.1,
                (Err(e), Err(y)) => e@ == y,
                _ => false,
            },
        decreases c, 3int,
    {
        match self.transform_rel(&**c) {
            Ok(t) => {
                t.add_to(cost);
                if t.priority > *prio {
                    *prio = t.priority;
                }
                Ok(Box::new(t.root))
            },
            Err(e) => Err(e),
        }
    }

    /// The proposals for a projection straight over a table: its attributes
    /// are rewritten as expressions, and the result is proposed only when the
    /// audience may see it.
    #[verifier::rlimit(100)]
    #[verifier::spinoff_prover]
    fn leaf_proposals(&self, attributes: &Vec<ExprT>, from: &RelT, table: &ContextKey) -> (r: Result<Vec<Transformed<RelT>>, Error>)
        requires
            from@.root == crate::rel::RelV::Table(table@),
        ensures
            match (r, spec_leaf(self.bindings.entries@, self.bindings@, self.audience@, expr_views(attributes@), from@, table@)) {
                (Ok(v), Ok(ps)) => v@.map_values(|t: Transformed<RelT>| rview(t)) == ps,
                (Err(e), Err(x)) => e@ == x,
                _ => false,
            },
            (r is Ok) ==> forall|q: int| 0 <= q < r->Ok_0@.len() ==> (#[trigger] r->Ok_0@[q]).priority <= top_priority(self.bindings@),
            (r is Ok) ==> forall|q: int| 0 <= q < r->Ok_0@.len() ==> bound_priority(self.bindings@, (#[trigger] r->Ok_0@[q]).priority),
            (r is Ok) ==> forall|q: int| 0 <= q < r->Ok_0@.len() ==> rel_granted((#[trigger] r->Ok_0@[q]).root@, self.audience@),
    {
        let selected = self.filter_bindings(table);
        let ghost b = self.bindings.entries@;
        let ghost sel = filter_sel(self.bindings@, table@);
        let ghost aud = self.audience@;
        proof {
            assert(selected@ =~= sel);
        }
        let et = ExprTransformer::new(self.bindings, selected, self.audience);
        let ghost av = expr_views(attributes@);
        proof {
            lemma_expr_views(attributes@);
        }
        let mut attrs = clone_exprs(attributes);
        let mut cost: Context<u64> = Context::new();
        let mut priority: u64 = 0;
        let mut i: usize = 0;
        proof {
            assert(cost@ =~= Seq::<(Seq<Seq<char>>, u64)>::empty());
            assert(av.subrange(0, 0) =~= Seq::<ExprTV>::empty());
        }
        while i < attrs.len()
            invariant
                et.wf(),
                et.bindings == self.bindings,
                et.audience == self.audience,
                et.selected@ == sel,
                sel == filter_sel(self.bindings@, table@),
                b == self.bindings.entries@,
                aud == self.audience@,
                av == expr_views(attributes@),
                av.len() == attributes@.len(),
                attrs@.len() == attributes@.len(),
                i <= attrs@.len(),
                forall|q: int| i <= q < attrs@.len() ==> (#[trigger] attrs@[q])@ == av[q],
                leaf_attrs(b, sel, aud, av, i as nat) == Ok::<_, ErrorV>((expr_views(attrs@.subrange(0, i as int)), (cost@, priority))),
                priority <= top_priority(self.bindings@),
                bound_priority(self.bindings@, priority),
            decreases attrs@.len() - i,
        {
            let ghost before = attrs@;
            proof {
                lemma_expr_views(attrs@.subrange(0, i as int));
            }
            match et.transform_expr(&attrs[i]) {
                Ok(t) => {
                    t.add_to(&mut cost);
                    proof {
                        if t.priority != 0 {
                            let q = choose|q: int| 0 <= q < et.selected@.len() && self.bindings@[#[trigger] et.selected@[q] as int].1.priority == t.priority;
                            assert(self.bindings@[et.selected@[q] as int].1.priority == t.priority);
                        }
                    }
                    if t.priority > priority {
                        priority = t.priority;
                    }
                    attrs.set(i, t.root);
                    proof {
                        lemma_expr_views(attrs@.subrange(0, i + 1));
                        assert(attrs@.subrange(0, i + 1).drop_last() =~= before.subrange(0, i as int));
                        assert(expr_views(attrs@.subrange(0, i + 1)) =~= expr_views(before.subrange(0, i as int)).push(attrs@[i as int]@));
                    }
                },
                Err(Error::NoMatch) => {
                    proof {
                        lemma_expr_views(attrs@.subrange(0, i + 1));
                        assert(attrs@.subrange(0, i + 1).drop_last() =~= before.subrange(0, i as int));
                        assert(expr_views(attrs@.subrange(0, i + 1)) =~= expr_views(before.subrange(0, i as int)).push(av[i as int]));
                    }
                },
                Err(e) => {
                    proof {
                        assert(attrs@[i as int]@ == av[i as int]);
                        assert(spec_te(b, sel, aud, av[i as int]) == Err::<(ExprTV, Seq<(Seq<Seq<char>>, u64)>, u64), ErrorV>(e@));
                        assert(leaf_attrs(b, sel, aud, av, (i + 1) as nat) is Err);
                        lemma_leaf_attrs_err(b, sel, aud, av, (i + 1) as nat, av.len());
                        assert(leaf_attrs(b, sel, aud, av, av.len()) == Err::<(Seq<ExprTV>, (Seq<(Seq<Seq<char>>, u64)>, u64)), ErrorV>(e@));
                        assert(spec_leaf(b, self.bindings@, aud, av, from@, table@) == Err::<Seq<(RelTV, Seq<(Seq<Seq<char>>, u64)>, u64)>, ErrorV>(e@));
                    }
                    return Err(e);
                },
            }
            i += 1;
        }
        proof {
            assert(attrs@.subrange(0, attrs@.len() as int) =~= attrs@);
        }
        let from2 = RelT { root: Rel::Table(table.clone()), board: clone_rel_board(&from.board) };
        assert(from2@ == from@);
        let root = RelT::lift(Rel::Projection { attributes: attrs, from: Box::new(from2) });
        let visible = match &root.board {
            Ok(m) => contains_key(&m.audience, self.audience),
            Err(e) => {
                return Err(Error::Validate(e.clone()));
            },
        };
        let mut out: Vec<Transformed<RelT>> = Vec::new();
        if visible {
            out.push(Transformed { root, cost, priority });
        }
        proof {
            assert(out@.map_values(|t: Transformed<RelT>| rview(t)) =~= spec_leaf(b, self.bindings@, aud, av, from@, table@)->Ok_0);
        }
        assert(forall|q: int| 0 <= q < out@.len() ==> rel_granted((#[trigger] out@[q]).root@, self.audience@));
        Ok(out)
    }

    /// The proposals of the relational policies bound over the single source
    /// of `rel_t`, each granting the audience.
    #[verifier::rlimit(100)]
    #[verifier::spinoff_prover]
    fn rel_proposals(&self, rel_t: &RelT, provenance: &ContextKey) -> (r: Result<Vec<Transformed<RelT>>, Error>)
        ensures
            match (r, rel_proposals(self.bindings.entries@, rel_offers(self.bindings.entries@, spec_filter(self.bindings@, provenance@)), rel_t@, self.schema@, self.audience@)) {
                (Ok(v), Ok(ps)) => v@.map_values(|t: Transformed<RelT>| rview(t)) == ps,
                (Err(e), Err(x)) => e@ == x,
                _ => false,
            },
            (r is Ok) ==> forall|q: int| 0 <= q < r->Ok_0@.len() ==> (#[trigger] r->Ok_0@[q]).priority <= top_priority(self.bindings@),
            (r is Ok) ==> forall|q: int| 0 <= q < r->Ok_0@.len() ==> bound_priority(self.bindings@, (#[trigger] r->Ok_0@[q]).priority),
            (r is Ok) ==> forall|q: int| 0 <= q < r->Ok_0@.len() ==> rel_granted((#[trigger] r->Ok_0@[q]).root@, self.audience@),
            (r is Ok) && !(rel_t.root is Aggregation) ==> r->Ok_0@.len() == 0,
    {
        let selected = self.filter_bindings(provenance);
        let ghost b = self.bindings.entries@;
        let ghost sel = selected@.map_values(|i: usize| i as int);
        let ghost all = rel_offers(b, sel);
        let mut candidates: Vec<Transformed<RelT>> = Vec::new();
        let mut i: usize = 0;
        proof {
            assert(sel.subrange(0, 0) =~= Seq::<int>::empty());
            assert(candidates@.map_values(|t: Transformed<RelT>| rview(t)) =~= Seq::<(RelTV, Seq<(Seq<Seq<char>>, u64)>, u64)>::empty());
        }
        while i < selected.len()
            invariant
                b == self.bindings.entries@,
                sel == selected@.map_values(|i: usize| i as int),
                sel == spec_filter(self.bindings@, provenance@),
                all == rel_offers(b, sel),
                b.len() == self.bindings@.len(),
                i <= selected@.len(),
                forall|q: int| 0 <= q < selected@.len() ==> selected@[q] < self.bindings@.len(),
                rel_proposals(b, rel_offers(b, sel.subrange(0, i as int)), rel_t@, self.schema@, self.audience@) == Ok::<_, ErrorV>(candidates@.map_values(|t: Transformed<RelT>| rview(t))),
                forall|q: int| 0 <= q < candidates@.len() ==> (#[trigger] candidates@[q]).priority <= top_priority(self.bindings@),
                forall|q: int| 0 <= q < candidates@.len() ==> bound_priority(self.bindings@, (#[trigger] candidates@[q]).priority),
                forall|q: int| 0 <= q < candidates@.len() ==> rel_granted((#[trigger] candidates@[q]).root@, self.audience@),
                !(rel_t.root is Aggregation) ==> candidates@.len() == 0,
            decreases selected@.len() - i,
        {
            let bi = selected[i];
            let key = &self.bindings.entries[bi].0;
            let binding = &self.bindings.entries[bi].1;
            let ghost done = rel_offers(b, sel.subrange(0, i as int));
            proof {
                lemma_top_priority(self.bindings@, bi as int);
                assert(binding@ == self.bindings@[bi as int].1);
                assert(key@ == self.bindings@[bi as int].0);
                let s2 = sel.subrange(0, i + 1);
                assert(s2.drop_last() =~= sel.subrange(0, i as int));
                assert(done + row(b, bi as int).subrange(0, 0) =~= done);
            }
            let mut j: usize = 0;
            while j < binding.policies.len()
                invariant
                    b == self.bindings.entries@,
                    sel == selected@.map_values(|i: usize| i as int),
                    sel == spec_filter(self.bindings@, provenance@),
                    all == rel_offers(b, sel),
                    b.len() == self.bindings@.len(),
                    i < selected@.len(),
                    bi == selected@[i as int],
                    done == rel_offers(b, sel.subrange(0, i as int)),
                    key == &b[bi as int].0,
                    binding == &b[bi as int].1,
                    rel_proposals(b, done + row(b, bi as int).subrange(0, j as int), rel_t@, self.schema@, self.audience@) == Ok::<_, ErrorV>(candidates@.map_values(|t: Transformed<RelT>| rview(t))),
                    bi < self.bindings@.len(),
                    binding@ == self.bindings@[bi as int].1,
                    binding.priority <= top_priority(self.bindings@),
                    j <= binding.policies@.len(),
                    forall|q: int| 0 <= q < candidates@.len() ==> (#[trigger] candidates@[q]).priority <= top_priority(self.bindings@),
                    forall|q: int| 0 <= q < candidates@.len() ==> bound_priority(self.bindings@, (#[trigger] candidates@[q]).priority),
                    forall|q: int| 0 <= q < candidates@.len() ==> rel_granted((#[trigger] candidates@[q]).root@, self.audience@),
                    !(rel_t.root is Aggregation) ==> candidates@.len() == 0,
                decreases binding.policies@.len() - j,
            {
                let ghost os = done + row(b, bi as int).subrange(0, j + 1);
                let ghost before_cs = candidates@.map_values(|t: Transformed<RelT>| rview(t));
                proof {
                    assert(os.drop_last() =~= done + row(b, bi as int).subrange(0, j as int));
                    assert(os.last() == (bi as int, j as int));
                    lemma_rel_offers_prefix(b, sel, i + 1);
                    let s2 = sel.subrange(0, i + 1);
                    assert(s2.drop_last() =~= sel.subrange(0, i as int));
                    assert(rel_offers(b, s2) == done + row(b, bi as int));
                    assert(all.subrange(0, os.len() as int) =~= os);
                }
                match binding.policies[j].transform_rel(rel_t, self.schema) {
                    Ok(costly) => {
                        let mut root = costly.root;
                        let ghost before = root.board;
                        match grant_rel(&mut root.board, self.audience) {
                            Err(e) => {
                                proof {
                                    lemma_rel_proposals_err(b, all, os.len() as int, rel_t@, self.schema@, self.audience@);
                                }
                                return Err(Error::Validate(e));
                            },
                            Ok(()) => {},
                        }
                        proof {
                            audience_monotonicity(keys_view(before->Ok_0.audience@), self.audience@);
                        }
                        if binding.is_in_budget(costly.cost) {
                            candidates.push(Transformed::new(root, key, costly.cost, binding.priority));
                            proof {
                                assert(candidates@.map_values(|t: Transformed<RelT>| rview(t)) =~= before_cs.push(rview(candidates@.last())));
                            }
                        } else {
                            assert(candidates@.map_values(|t: Transformed<RelT>| rview(t)) =~= before_cs);
                        }
                    },
                    Err(Error::NoMatch) => {},
                    Err(e) => {
                        proof {
                            lemma_rel_proposals_err(b, all, os.len() as int, rel_t@, self.schema@, self.audience@);
                        }
                        return Err(e);
                    },
                }
                j += 1;
            }
            proof {
                assert(row(b, bi as int).subrange(0, j as int) =~= row(b, bi as int));
                let s2 = sel.subrange(0, i + 1);
                assert(s2.drop_last() =~= sel.subrange(0, i as int));
            }
            i += 1;
        }
        proof {
            assert(sel.subrange(0, sel.len() as int) =~= sel);
        }
        Ok(candidates)
    }

    /// The proposals made at the root of `rel_t`.
    #[verifier::rlimit(100)]
    #[verifier::spinoff_prover]
    fn root_proposals(&self, rel_t: &RelT) -> (r: Result<Vec<Transformed<RelT>>, Error>)
        ensures
            match (r, tr_proposals(self.bindings.entries@, self.bindings@, self.audience@, self.schema@, rel_t@)) {
                (Ok(v), Ok(ps)) => v@.map_values(|t: Transformed<RelT>| rview(t)) == ps,
                (Err(e), Err(x)) => e@ == x,
                _ => false,
            },
            (r is Ok) ==> forall|q: int| 0 <= q < r->Ok_0@.len() ==> (#[trigger] r->Ok_0@[q]).priority <= top_priority(self.bindings@),
            (r is Ok) ==> forall|q: int| 0 <= q < r->Ok_0@.len() ==> bound_priority(self.bindings@, (#[trigger] r->Ok_0@[q]).priority),
            (r is Ok) ==> forall|q: int| 0 <= q < r->Ok_0@.len() ==> rel_granted((#[trigger] r->Ok_0@[q]).root@, self.audience@),
            (r is Ok) && (rel_t.root is Table) ==> r->Ok_0@.len() == 0,
    {
        let leaf_from: Option<(&Vec<ExprT>, &RelT, &ContextKey)> = match &rel_t.root {
            Rel::Projection { attributes, from } => {
                assert(rel_t@.root == rel_t.root.view());
                assert(from@.root == from.root.view());
                match &from.root {
                    Rel::Table(k) => Some((attributes, &**from, k)),
                    _ => None,
                }
            },
            _ => None,
        };
        let proposed = match leaf_from {
            Some((attributes, from, k)) => match self.leaf_proposals(attributes, from, k) {
                Ok(v) => v,
                Err(e) => {
                    return Err(e);
                },
            },
            None => {
                let provenance = match &rel_t.board {
                    Ok(m) => crate::rel::clone_opt_key(&m.provenance),
                    Err(e) => {
                        return Err(Error::Validate(e.clone()));
                    },
                };
                match provenance {
                    Some(p) => match self.rel_proposals(rel_t, &p) {
                        Ok(v) => v,
                        Err(e) => {
                            return Err(e);
                        },
                    },
                    None => Vec::new(),
                }
            },
        };
        Ok(proposed)
    }

    /// Rewrites `rel_t` by the best proposal at its root or, when none
    /// applies, rewrites each of its sub-relations.
    pub fn transform_rel(&self, rel_t: &RelT) -> (r: Result<Transformed<RelT>, Error>)
        ensures
            match (r, spec_tr(self.bindings.entries@, self.bindings@, self.audience@, self.schema@, rel_t@)) {
                (Ok(t), Ok(v)) => rview(t) == v,
                (Err(e), Err(x)) => e@ == x,
                _ => false,
            },
            (r is Ok) ==> r->Ok_0.priority <= top_priority(self.bindings@),
            (r is Ok) ==> bound_priority(self.bindings@, r->Ok_0.priority),
            (rel_t.root is Table) ==> (r is Err),
            over_tables(rel_t@) && (r is Ok) ==> rel_granted(r->Ok_0.root@, self.audience@),
        decreases rel_t, 2int,
    {
        let proposed = match self.root_proposals(rel_t) {
            Ok(v) => v,
            Err(e) => {
                return Err(e);
            },
        };
        let ghost cands = proposed@;
        match best_candidate(proposed) {
            Some(best) => {
                proof {
                    let ps = cands.map_values(|t: Transformed<RelT>| rview(t));
                    assert(rv_priorities(ps) =~= priorities(cands));
                    assert(rv_totals(ps) =~= totals(cands));
                    let j = choose|j: int| is_best(priorities(cands), totals(cands), j) && best == #[trigger] cands[j];
                    assert(rview(best) == ps[j]);
                    let k = choose|k: int| is_best(rv_priorities(ps), rv_totals(ps), k);
                    lemma_best_unique(rv_priorities(ps), rv_totals(ps), j, k);
                }
                return Ok(best);
            },
            None => {},
        }
        // below a node over tables alone nothing can be rewritten
        if rel_t.is_leaf() || subs_are_tables(rel_t) {
            return Err(Error::NoMatch);
        }
        match &rel_t.root {
            Rel::Join { .. } | Rel::SetOperation { .. } => self.two_children(rel_t),
            _ => self.one_child(rel_t),
        }
    }

    /// Rewrites the one sub-relation of `rel_t`.
    #[verifier::rlimit(100)]
    #[verifier::spinoff_prover]
    fn one_child(&self, rel_t: &RelT) -> (r: Result<Transformed<RelT>, Error>)
        requires
            !(rel_t.root is Table),
            !(rel_t.root is Join),
            !(rel_t.root is SetOperation),
            !over_tables(rel_t@),
        ensures
            (r is Ok) ==> r->Ok_0.priority <= top_priority(self.bindings@),
            (r is Ok) ==> bound_priority(self.bindings@, r->Ok_0.priority),
            match (r, spec_tr_children(self.bindings.entries@, self.bindings@, self.audience@, self.schema@, rel_t@)) {
                (Ok(t), Ok(v)) => rview(t) == v,
                (Err(e), Err(x)) => e@ == x,
                _ => false,
            },
        decreases rel_t, 1int,
    {
        let mut cost: Context<u64> = Context::new();
        let mut prio: u64 = 0;
        proof {
            assert(decreases_to!(rel_t => rel_t.root));
            assert(cost@ =~= Seq::<(Seq<Seq<char>>, u64)>::empty());
        }
        let root = match &rel_t.root {
            Rel::WithAlias { from, alias } => {
                let f = match self.sub(from, &mut cost, &mut prio) {
                    Ok(x) => x,
                    Err(e) => {
                        return Err(e);
                    },
                };
                Rel::WithAlias { from: f, alias: alias.clone() }
            },
            Rel::Projection { attributes, from } => {
                let f = match self.sub(from, &mut cost, &mut prio) {
                    Ok(x) => x,
                    Err(e) => {
                        return Err(e);
                    },
                };
                Rel::Projection { attributes: clone_exprs(attributes), from: f }
            },
            Rel::Aggregation { attributes, group_by, from } => {
                let f = match self.sub(from, &mut cost, &mut prio) {
                    Ok(x) => x,
                    Err(e) => {
                        return Err(e);
                    },
                };
                Rel::Aggregation { attributes: clone_exprs(attributes), group_by: clone_exprs(group_by), from: f }
            },
            Rel::Selection { from, where_ } => {
                let f = match self.sub(from, &mut cost, &mut prio) {
                    Ok(x) => x,
                    Err(e) => {
                        return Err(e);
                    },
                };
                Rel::Selection { from: f, where_: Box::new((**where_).clone()) }
            },
            Rel::Offset { from, n } => {
                let f = match self.sub(from, &mut cost, &mut prio) {
                    Ok(x) => x,
                    Err(e) => {
                        return Err(e);
                    },
                };
                Rel::Offset { from: f, n: *n }
            },
            Rel::Limit { from, n } => {
                let f = match self.sub(from, &mut cost, &mut prio) {
                    Ok(x) => x,
                    Err(e) => {
                        return Err(e);
                    },
                };
                Rel::Limit { from: f, n: *n }
            },
            Rel::OrderBy { from, keys } => {
                let f = match self.sub(from, &mut cost, &mut prio) {
                    Ok(x) => x,
                    Err(e) => {
                        return Err(e);
                    },
                };
                Rel::OrderBy { from: f, keys: clone_exprs(keys) }
            },
            Rel::Distinct { from } => {
                let f = match self.sub(from, &mut cost, &mut prio) {
                    Ok(x) => x,
                    Err(e) => {
                        return Err(e);
                    },
                };
                Rel::Distinct { from: f }
            },
            _ => {
                return Err(Error::NoMatch);
            },
        };
        Ok(Transformed { root: RelT::lift(root), cost, priority: prio })
    }

    /// Rewrites the two sub-relations of a join or set operation, left first.
    #[verifier::rlimit(100)]
    #[verifier::spinoff_prover]
    fn two_children(&self, rel_t: &RelT) -> (r: Result<Transformed<RelT>, Error>)
        requires
            (rel_t.root is Join) || (rel_t.root is SetOperation),
            !over_tables(rel_t@),
        ensures
            (r is Ok) ==> r->Ok_0.priority <= top_priority(self.bindings@),
            (r is Ok) ==> bound_priority(self.bindings@, r->Ok_0.priority),
            match (r, spec_tr_children(self.bindings.entries@, self.bindings@, self.audience@, self.schema@, rel_t@)) {
                (Ok(t), Ok(v)) => rview(t) == v,
                (Err(e), Err(x)) => e@ == x,
                _ => false,
            },
        decreases rel_t, 1int,
    {
        let mut cost: Context<u64> = Context::new();
        let mut prio: u64 = 0;
        proof {
            assert(decreases_to!(rel_t => rel_t.root));
            assert(cost@ =~= Seq::<(Seq<Seq<char>>, u64)>::empty());
        }
        let root = match &rel_t.root {
            Rel::Join { left, right, kind, on } => {
                let l = match self.sub(left, &mut cost, &mut prio) {
                    Ok(x) => x,
                    Err(e) => {
                        return Err(e);
                    },
                };
                let r = match self.sub(right, &mut cost, &mut prio) {
                    Ok(x) => x,
                    Err(e) => {
                        return Err(e);
                    },
                };
                Rel::Join {
                    left: l,
                    right: r,
                    kind: *kind,
                    on: match on {
                        Some(e) => Some(Box::new((**e).clone())),
                        None => None,
                    },
                }
            },
            Rel::SetOperation { left, right, op } => {
                let l = match self.sub(left, &mut cost, &mut prio) {
                    Ok(x) => x,
                    Err(e) => {
                        return Err(e);
                    },
                };
                let r = match self.sub(right, &mut cost, &mut prio) {
                    Ok(x) => x,
                    Err(e) => {
                        return Err(e);
                    },
                };
                Rel::SetOperation { left: l, right: r, op: *op }
            },
            _ => {
                return Err(Error::NoMatch);
            },
        };
        Ok(Transformed { root: RelT::lift(root), cost, priority: prio })
    }
}

} // verus!
