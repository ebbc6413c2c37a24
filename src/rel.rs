use vstd::prelude::*;

use crate::context::{spec_extend, spec_get, spec_insert, Context};
use crate::error::{ValidateError, ValidateErrorV};
use crate::expr::{clone_exprs, expr_views, lemma_expr_views, Expr, ExprT, ExprTV, ExprV};
use crate::key::{key_name, key_text, positional_alias, positional_name, ContextKey};
use crate::meta::{
    audiences, clone_keys, first_err, first_error, keep_in, keep_keys_in, keys_view, meet_all,
    meet_of, meta, meta_of, push_all, ExprMeta, ExprMetaV,
};

verus! {

#[derive(PartialEq, Eq, Structural, Clone, Copy, Debug)]
pub enum JoinKind {
    Inner,
    LeftOuter,
    RightOuter,
    FullOuter,
    Cross,
}

#[derive(PartialEq, Eq, Structural, Clone, Copy, Debug)]
pub enum SetOperator {
    Union,
    Except,
    Intersect,
}

/// The annotation of a relation: its columns, the audiences that may see it,
/// and the one table it derives from, when there is one.
#[derive(Debug)]
pub struct TableMeta {
    pub columns: Context<ExprMeta>,
    pub audience: Vec<ContextKey>,
    pub provenance: Option<ContextKey>,
}

pub struct TableMetaV {
    pub columns: Seq<(Seq<Seq<char>>, ExprMetaV)>,
    pub audience: Seq<Seq<Seq<char>>>,
    pub provenance: Option<Seq<Seq<char>>>,
}

pub open spec fn opt_key_view(k: Option<ContextKey>) -> Option<Seq<Seq<char>>> {
    match k {
        Some(k) => Some(k@),
        None => None,
    }
}

impl View for TableMeta {
    type V = TableMetaV;

    open spec fn view(&self) -> TableMetaV {
        TableMetaV {
            columns: self.columns@,
            audience: keys_view(self.audience@),
            provenance: opt_key_view(self.provenance),
        }
    }
}

pub fn clone_columns(c: &Context<ExprMeta>) -> (r: Context<ExprMeta>)
    ensures
        r@ == c@,
{
    let mut out: Vec<(ContextKey, ExprMeta)> = Vec::new();
    let mut i: usize = 0;
    while i < c.entries.len()
        invariant
            i <= c.entries@.len(),
            out@.len() == i,
            forall|j: int| 0 <= j < i ==> (#[trigger] out@[j]).0@ == c.entries@[j].0@ && out@[j].1@ == c.entries@[j].1@,
        decreases c.entries@.len() - i,
    {
        out.push((c.entries[i].0.clone(), c.entries[i].1.clone()));
        i += 1;
    }
    let r = Context { entries: out };
    assert(r@ =~= c@);
    r
}

pub fn clone_opt_key(k: &Option<ContextKey>) -> (r: Option<ContextKey>)
    ensures
        opt_key_view(r) == opt_key_view(*k),
{
    match k {
        Some(k) => Some(k.clone()),
        None => None,
    }
}

impl Clone for TableMeta {
    fn clone(&self) -> (r: Self)
        ensures
            r@ == self@,
    {
        TableMeta {
            columns: clone_columns(&self.columns),
            audience: clone_keys(&self.audience),
            provenance: clone_opt_key(&self.provenance),
        }
    }
}

/// A relational operator whose children carry their annotations.
#[allow(inconsistent_fields)]
pub enum Rel {
    Table(ContextKey),
    WithAlias { from: Box<RelT>, alias: String },
    Projection { attributes: Vec<ExprT>, from: Box<RelT> },
    Aggregation { attributes: Vec<ExprT>, group_by: Vec<ExprT>, from: Box<RelT> },
    Selection { from: Box<RelT>, where_: Box<ExprT> },
    Offset { from: Box<RelT>, n: u64 },
    Limit { from: Box<RelT>, n: u64 },
    OrderBy { from: Box<RelT>, keys: Vec<ExprT> },
    Distinct { from: Box<RelT> },
    Join { left: Box<RelT>, right: Box<RelT>, kind: JoinKind, on: Option<Box<ExprT>> },
    SetOperation { left: Box<RelT>, right: Box<RelT>, op: SetOperator },
}

/// An annotated relation tree.
pub struct RelT {
    pub root: Rel,
    pub board: Result<TableMeta, ValidateError>,
}

#[allow(inconsistent_fields)]
pub enum RelV {
    Table(Seq<Seq<char>>),
    WithAlias { from: Box<RelTV>, alias: Seq<char> },
    Projection { attributes: Seq<ExprTV>, from: Box<RelTV> },
    Aggregation { attributes: Seq<ExprTV>, group_by: Seq<ExprTV>, from: Box<RelTV> },
    Selection { from: Box<RelTV>, where_: Box<ExprTV> },
    Offset { from: Box<RelTV>, n: u64 },
    Limit { from: Box<RelTV>, n: u64 },
    OrderBy { from: Box<RelTV>, keys: Seq<ExprTV> },
    Distinct { from: Box<RelTV> },
    Join { left: Box<RelTV>, right: Box<RelTV>, kind: JoinKind, on: Option<Box<ExprTV>> },
    SetOperation { left: Box<RelTV>, right: Box<RelTV>, op: SetOperator },
}

pub struct RelTV {
    pub root: RelV,
    pub board: Result<TableMetaV, ValidateErrorV>,
}

pub open spec fn rel_board_view(b: Result<TableMeta, ValidateError>) -> Result<TableMetaV, ValidateErrorV> {
    match b {
        Ok(m) => Ok(m@),
        Err(e) => Err(e@),
    }
}

impl Rel {
    pub open spec fn view(&self) -> RelV
        decreases self,
    {
        match self {
            Rel::Table(k) => RelV::Table(k@),
            Rel::WithAlias { from, alias } => RelV::WithAlias { from: Box::new(from.view()), alias: alias@ },
            Rel::Projection { attributes, from } => RelV::Projection {
                attributes: expr_views(attributes@),
                from: Box::new(from.view()),
            },
            Rel::Aggregation { attributes, group_by, from } => RelV::Aggregation {
                attributes: expr_views(attributes@),
                group_by: expr_views(group_by@),
                from: Box::new(from.view()),
            },
            Rel::Selection { from, where_ } => RelV::Selection {
                from: Box::new(from.view()),
                where_: Box::new(where_.view()),
            },
            Rel::Offset { from, n } => RelV::Offset { from: Box::new(from.view()), n: *n },
            Rel::Limit { from, n } => RelV::Limit { from: Box::new(from.view()), n: *n },
            Rel::OrderBy { from, keys } => RelV::OrderBy {
                from: Box::new(from.view()),
                keys: expr_views(keys@),
            },
            Rel::Distinct { from } => RelV::Distinct { from: Box::new(from.view()) },
            Rel::Join { left, right, kind, on } => RelV::Join {
                left: Box::new(left.view()),
                right: Box::new(right.view()),
                kind: *kind,
                on: match on {
                    Some(e) => Some(Box::new(e.view())),
                    None => None,
                },
            },
            Rel::SetOperation { left, right, op } => RelV::SetOperation {
                left: Box::new(left.view()),
                right: Box::new(right.view()),
                op: *op,
            },
        }
    }
}

impl RelT {
    pub open spec fn view(&self) -> RelTV
        decreases self,
    {
        RelTV { root: self.root.view(), board: rel_board_view(self.board) }
    }
}

pub fn clone_rel_board(b: &Result<TableMeta, ValidateError>) -> (r: Result<TableMeta, ValidateError>)
    ensures
        rel_board_view(r) == rel_board_view(*b),
{
    match b {
        Ok(m) => Ok(m.clone()),
        Err(e) => Err(e.clone()),
    }
}

fn clone_rel_box(b: &Box<RelT>) -> (r: Box<RelT>)
    ensures
        r@ == b@,
    decreases b, 1int,
{
    Box::new((**b).clone())
}

impl Clone for RelT {
    fn clone(&self) -> (r: Self)
        ensures
            r@ == self@,
        decreases self, 0int,
    {
        proof {
            assert(decreases_to!(self => self.root));
        }
        let root = match &self.root {
            Rel::Table(k) => Rel::Table(k.clone()),
            Rel::WithAlias { from, alias } => Rel::WithAlias {
                from: clone_rel_box(from),
                alias: alias.clone(),
            },
            Rel::Projection { attributes, from } => Rel::Projection {
                attributes: clone_exprs(attributes),
                from: clone_rel_box(from),
            },
            Rel::Aggregation { attributes, group_by, from } => Rel::Aggregation {
                attributes: clone_exprs(attributes),
                group_by: clone_exprs(group_by),
                from: clone_rel_box(from),
            },
            Rel::Selection { from, where_ } => Rel::Selection {
                from: clone_rel_box(from),
                where_: Box::new((**where_).clone()),
            },
            Rel::Offset { from, n } => Rel::Offset { from: clone_rel_box(from), n: *n },
            Rel::Limit { from, n } => Rel::Limit { from: clone_rel_box(from), n: *n },
            Rel::OrderBy { from, keys } => Rel::OrderBy {
                from: clone_rel_box(from),
                keys: clone_exprs(keys),
            },
            Rel::Distinct { from } => Rel::Distinct { from: clone_rel_box(from) },
            Rel::Join { left, right, kind, on } => Rel::Join {
                left: clone_rel_box(left),
                right: clone_rel_box(right),
                kind: *kind,
                on: match on {
                    Some(e) => Some(Box::new((**e).clone())),
                    None => None,
                },
            },
            Rel::SetOperation { left, right, op } => Rel::SetOperation {
                left: clone_rel_box(left),
                right: clone_rel_box(right),
                op: *op,
            },
        };
        RelT { root, board: clone_rel_board(&self.board) }
    }
}

/// The sub-relations of a node, in order.
pub open spec fn rel_children(r: RelV) -> Seq<RelTV> {
    match r {
        RelV::Table(_) => Seq::empty(),
        RelV::WithAlias { from, .. } | RelV::Projection { from, .. } | RelV::Aggregation {
            from,
            ..
        } | RelV::Selection { from, .. } | RelV::Offset { from, .. } | RelV::Limit { from, .. }
        | RelV::OrderBy { from, .. } | RelV::Distinct { from } => seq![*from],
        RelV::Join { left, right, .. } | RelV::SetOperation { left, right, .. } => seq![*left, *right],
    }
}

/// The expressions of a node, in order.
pub open spec fn rel_exprs(r: RelV) -> Seq<ExprTV> {
    match r {
        RelV::Projection { attributes, .. } => attributes,
        RelV::Aggregation { attributes, group_by, .. } => attributes + group_by,
        RelV::Selection { where_, .. } => seq![*where_],
        RelV::OrderBy { keys, .. } => keys,
        RelV::Join { on, .. } => match on {
            Some(e) => seq![*e],
            None => Seq::empty(),
        },
        _ => Seq::empty(),
    }
}

pub open spec fn first_rel_err(s: Seq<RelTV>) -> Option<ValidateErrorV> {
    if s.len() >= 1 && s[0].board is Err {
        Some(s[0].board->Err_0)
    } else if s.len() >= 2 && s[1].board is Err {
        Some(s[1].board->Err_0)
    } else {
        None
    }
}

pub open spec fn tmeta(t: RelTV) -> TableMetaV {
    t.board->Ok_0
}

/// The name of the column that the attribute at position `i` produces.
pub open spec fn attr_name(e: ExprTV, i: nat) -> Seq<char> {
    match e.root {
        ExprV::As { alias, .. } => alias,
        _ => positional_name(i),
    }
}

/// The annotation of the column that an attribute produces: its own.
pub open spec fn column_meta(e: ExprTV) -> ExprMetaV {
    meta_of(e)
}

/// The columns that a list of attributes produces.
pub open spec fn attr_columns(s: Seq<ExprTV>) -> Seq<(Seq<Seq<char>>, ExprMetaV)>
    decreases s.len(),
{
    if s.len() == 0 {
        Seq::empty()
    } else {
        spec_insert(
            attr_columns(s.drop_last()),
            seq![attr_name(s.last(), (s.len() - 1) as nat)],
            column_meta(s.last()),
        )
    }
}

/// The columns of a set operation: each column of the left side must be found
/// on the right with the same annotation.
pub open spec fn set_columns(
    l: Seq<(Seq<Seq<char>>, ExprMetaV)>,
    r: Seq<(Seq<Seq<char>>, ExprMetaV)>,
) -> Result<Seq<(Seq<Seq<char>>, ExprMetaV)>, ValidateErrorV>
    decreases l.len(),
{
    if l.len() == 0 {
        Ok(Seq::empty())
    } else {
        match set_columns(l.drop_last(), r) {
            Err(e) => Err(e),
            Ok(c) => {
                let k = l.last().0;
                match spec_get(r, k) {
                    Err(ce) => Err(ce.column_error()),
                    Ok(rm) => if rm == l.last().1 {
                        Ok(spec_insert(c, seq![key_name(k)], rm))
                    } else {
                        Err(ValidateErrorV::SchemaMismatch(key_text(k)))
                    },
                }
            },
        }
    }
}

pub open spec fn prefixed(c: Seq<(Seq<Seq<char>>, ExprMetaV)>, alias: Seq<char>) -> Seq<
    (Seq<Seq<char>>, ExprMetaV),
> {
    c.map_values(|e: (Seq<Seq<char>>, ExprMetaV)| (seq![alias] + e.0, e.1))
}

/// The single source of two sides, when they share it.
pub open spec fn same_source(a: Option<Seq<Seq<char>>>, b: Option<Seq<Seq<char>>>) -> Option<
    Seq<Seq<char>>,
> {
    if (a is Some) && a == b {
        a
    } else {
        None
    }
}

/// The annotation of a node whose children are all annotated.
pub open spec fn spec_rel_meta(r: RelV) -> Result<TableMetaV, ValidateErrorV> {
    match r {
        RelV::Table(_) => Err(ValidateErrorV::Internal("tried to complete from leaf"@)),
        RelV::WithAlias { from, alias } => Ok(
            TableMetaV { columns: prefixed(tmeta(*from).columns, alias), ..tmeta(*from) },
        ),
        RelV::Projection { attributes, from } | RelV::Aggregation { attributes, from, .. } => Ok(
            TableMetaV {
                columns: attr_columns(attributes),
                audience: meet_all(audiences(attributes)),
                provenance: tmeta(*from).provenance,
            },
        ),
        RelV::Selection { from, .. } | RelV::Offset { from, .. } | RelV::Limit { from, .. }
        | RelV::OrderBy { from, .. } | RelV::Distinct { from } => Ok(tmeta(*from)),
        RelV::Join { left, right, .. } => Ok(
            TableMetaV {
                columns: spec_extend(tmeta(*left).columns, tmeta(*right).columns),
                audience: keep_in(tmeta(*left).audience, tmeta(*right).audience),
                provenance: same_source(tmeta(*left).provenance, tmeta(*right).provenance),
            },
        ),
        RelV::SetOperation { left, right, .. } => match set_columns(
            tmeta(*left).columns,
            tmeta(*right).columns,
        ) {
            Err(e) => Err(e),
            Ok(c) => Ok(
                TableMetaV {
                    columns: c,
                    audience: keep_in(tmeta(*left).audience, tmeta(*right).audience),
                    provenance: same_source(tmeta(*left).provenance, tmeta(*right).provenance),
                },
            ),
        },
    }
}

/// The annotation of a relation node, computed from those of its children:
/// a leaf cannot be annotated here, a failed sub-relation and then a failed
/// expression fail the node.
pub open spec fn spec_rel_dot(r: RelV) -> Result<TableMetaV, ValidateErrorV> {
    if r is Table {
        Err(ValidateErrorV::Internal("tried to complete from leaf"@))
    } else {
        match first_rel_err(rel_children(r)) {
            Some(e) => Err(e),
            None => match first_err(rel_exprs(r)) {
                Some(e) => Err(e),
                None => spec_rel_meta(r),
            },
        }
    }
}


/// Whether two expression annotations are the same.
pub fn same_meta(a: &ExprMeta, b: &ExprMeta) -> (r: bool)
    ensures
        r == (a@ == b@),
{
    if a.ty != b.ty || a.mode != b.mode || a.taint.0 != b.taint.0 || a.max_frequency
        != b.max_frequency || a.sensitivity != b.sensitivity {
        return false;
    }
    if a.audience.len() != b.audience.len() {
        assert(a@.audience.len() != b@.audience.len());
        return false;
    }
    let mut i: usize = 0;
    while i < a.audience.len()
        invariant
            a.audience@.len() == b.audience@.len(),
            i <= a.audience@.len(),
            forall|j: int| 0 <= j < i ==> a.audience@[j]@ == b.audience@[j]@,
        decreases a.audience@.len() - i,
    {
        if !a.audience[i].equals(&b.audience[i]) {
            assert(a@.audience[i as int] != b@.audience[i as int]);
            return false;
        }
        i += 1;
    }
    assert(a@.audience =~= b@.audience);
    true
}

/// The columns that a list of annotated attributes produces.
pub fn attribute_columns(attrs: &Vec<ExprT>) -> (r: Context<ExprMeta>)
    requires
        forall|i: int| 0 <= i < attrs@.len() ==> (#[trigger] attrs@[i]).board is Ok,
    ensures
        r@ == attr_columns(expr_views(attrs@)),
{
    proof {
        lemma_expr_views(attrs@);
    }
    let ghost all = expr_views(attrs@);
    let mut ctx: Context<ExprMeta> = Context::new();
    let mut i: usize = 0;
    assert(all.subrange(0, 0) =~= Seq::<ExprTV>::empty());
    while i < attrs.len()
        invariant
            all == expr_views(attrs@),
            all.len() == attrs@.len(),
            forall|q: int| 0 <= q < attrs@.len() ==> #[trigger] all[q] == attrs@[q]@,
            forall|q: int| 0 <= q < attrs@.len() ==> (#[trigger] attrs@[q]).board is Ok,
            i <= attrs@.len(),
            ctx@ == attr_columns(all.subrange(0, i as int)),
        decreases attrs@.len() - i,
    {
        let a = &attrs[i];
        let name = match &a.root {
            Expr::As { alias, .. } => alias.clone(),
            _ => positional_alias(i),
        };
        let m = meta(a).clone();
        proof {
            let s = all.subrange(0, i + 1);
            assert(s.drop_last() =~= all.subrange(0, i as int));
            assert(s.last() == a@);
            assert(m@ == column_meta(a@));
        }
        ctx.insert(ContextKey::with_name(name.as_str()), m);
        i += 1;
    }
    proof {
        assert(all.subrange(0, all.len() as int) =~= all);
    }
    ctx
}

proof fn set_columns_prefix_err(
    l: Seq<(Seq<Seq<char>>, ExprMetaV)>,
    r: Seq<(Seq<Seq<char>>, ExprMetaV)>,
    n: int,
)
    requires
        0 <= n <= l.len(),
        set_columns(l.subrange(0, n), r) is Err,
    ensures
        set_columns(l, r) == set_columns(l.subrange(0, n), r),
    decreases l.len(),
{
    if n < l.len() {
        assert(l.drop_last().subrange(0, n) =~= l.subrange(0, n));
        set_columns_prefix_err(l.drop_last(), r, n);
    } else {
        assert(l.subrange(0, n) =~= l);
    }
}

/// The columns of a set operation over relations with columns `l` and `r`.
pub fn set_operation_columns(l: &Context<ExprMeta>, r: &Context<ExprMeta>) -> (res: Result<
    Context<ExprMeta>,
    ValidateError,
>)
    ensures
        match res {
            Ok(c) => set_columns(l@, r@) == Ok::<_, ValidateErrorV>(c@),
            Err(e) => set_columns(l@, r@) == Err::<Seq<(Seq<Seq<char>>, ExprMetaV)>, _>(e@),
        },
{
    let mut out: Context<ExprMeta> = Context::new();
    let mut i: usize = 0;
    assert(l@.subrange(0, 0) =~= Seq::<(Seq<Seq<char>>, ExprMetaV)>::empty());
    while i < l.entries.len()
        invariant
            l@.len() == l.entries@.len(),
            i <= l@.len(),
            set_columns(l@.subrange(0, i as int), r@) == Ok::<_, ValidateErrorV>(out@),
        decreases l@.len() - i,
    {
        let k = &l.entries[i].0;
        let m = &l.entries[i].1;
        proof {
            let s = l@.subrange(0, i + 1);
            assert(s.drop_last() =~= l@.subrange(0, i as int));
            assert(s.last() == (k@, m@));
        }
        match r.get(k) {
            Err(ce) => {
                let e = ce.into_column_error();
                proof {
                    set_columns_prefix_err(l@, r@, i + 1);
                }
                return Err(e);
            },
            Ok(rm) => {
                if same_meta(rm, m) {
                    out.insert(ContextKey::with_name(k.name()), rm.clone());
                } else {
                    let e = ValidateError::SchemaMismatch(k.to_string());
                    proof {
                        set_columns_prefix_err(l@, r@, i + 1);
                    }
                    return Err(e);
                }
            },
        }
        i += 1;
    }
    proof {
        assert(l@.subrange(0, l@.len() as int) =~= l@);
    }
    Ok(out)
}

fn prefix_columns(c: &Context<ExprMeta>, alias: &String) -> (r: Context<ExprMeta>)
    ensures
        r@ == prefixed(c@, alias@),
{
    let mut out: Vec<(ContextKey, ExprMeta)> = Vec::new();
    let mut i: usize = 0;
    while i < c.entries.len()
        invariant
            i <= c.entries@.len(),
            out@.len() == i,
            forall|j: int| 0 <= j < i ==> (#[trigger] out@[j]).0@ == seq![alias@] + c.entries@[j].0@ && out@[j].1@ == c.entries@[j].1@,
        decreases c.entries@.len() - i,
    {
        out.push((c.entries[i].0.with_prefix(alias.as_str()), c.entries[i].1.clone()));
        i += 1;
    }
    let r = Context { entries: out };
    assert(r@ =~= prefixed(c@, alias@));
    r
}

fn shared_source(a: &Option<ContextKey>, b: &Option<ContextKey>) -> (r: Option<ContextKey>)
    ensures
        opt_key_view(r) == same_source(opt_key_view(*a), opt_key_view(*b)),
{
    match (a, b) {
        (Some(x), Some(y)) => if x.equals(y) {
            Some(x.clone())
        } else {
            None
        },
        _ => None,
    }
}

pub fn table_meta(t: &RelT) -> (r: &TableMeta)
    requires
        t.board is Ok,
    ensures
        r@ == tmeta(t@),
{
    t.board.as_ref().unwrap()
}

/// References to the expressions of a relation node, in order.
pub fn rel_expr_list(r: &Rel) -> (res: Vec<&ExprT>)
    ensures
        res@.len() == rel_exprs(r.view()).len(),
        forall|i: int| 0 <= i < res@.len() ==> (#[trigger] res@[i])@ == rel_exprs(r.view())[i],
{
    let mut out: Vec<&ExprT> = Vec::new();
    match r {
        Rel::Projection { attributes, .. } => {
            push_all(&mut out, attributes);
        },
        Rel::Aggregation { attributes, group_by, .. } => {
            push_all(&mut out, attributes);
            push_all(&mut out, group_by);
        },
        Rel::Selection { where_, .. } => {
            out.push(&**where_);
        },
        Rel::OrderBy { keys, .. } => {
            push_all(&mut out, keys);
        },
        Rel::Join { on, .. } => match on {
            Some(e) => {
                out.push(&**e);
            },
            None => {},
        },
        _ => {},
    }
    out
}

/// Computes the annotation of a relation node from those of its children.
pub fn rel_dot(r: &Rel) -> (res: Result<TableMeta, ValidateError>)
    ensures
        rel_board_view(res) == spec_rel_dot(r.view()),
{
    let ghost rv = r.view();
    // failures of the sub-relations come first
    match r {
        Rel::Table(_) => {
            return Err(ValidateError::Internal(String::from_str("tried to complete from leaf")));
        },
        Rel::WithAlias { from, .. } | Rel::Projection { from, .. } | Rel::Aggregation {
            from,
            ..
        } | Rel::Selection { from, .. } | Rel::Offset { from, .. } | Rel::Limit { from, .. }
        | Rel::OrderBy { from, .. } | Rel::Distinct { from } => {
            if let Err(e) = &from.board {
                return Err(e.clone());
            }
        },
        Rel::Join { left, right, .. } | Rel::SetOperation { left, right, .. } => {
            if let Err(e) = &left.board {
                return Err(e.clone());
            }
            if let Err(e) = &right.board {
                return Err(e.clone());
            }
        },
    }
    assert(first_rel_err(rel_children(rv)) is None);
    let exprs = rel_expr_list(r);
    match first_error(&exprs, Ghost(rel_exprs(rv))) {
        Some(e) => {
            return Err(e);
        },
        None => {},
    }
    proof {
        crate::meta::lemma_first_err_none(rel_exprs(rv));
    }
    match r {
        Rel::Table(_) => Err(ValidateError::Internal(String::from_str("tried to complete from leaf"))),
        Rel::WithAlias { from, alias } => {
            let fm = table_meta(from);
            Ok(
                TableMeta {
                    columns: prefix_columns(&fm.columns, alias),
                    audience: clone_keys(&fm.audience),
                    provenance: clone_opt_key(&fm.provenance),
                },
            )
        },
        Rel::Projection { attributes, from } | Rel::Aggregation { attributes, from, .. } => {
            proof {
                lemma_expr_views(attributes@);
                assert forall|i: int| 0 <= i < attributes@.len() implies (#[trigger] attributes@[i]).board is Ok by {
                    assert(rel_exprs(rv)[i] == attributes@[i]@);
                }
            }
            let fm = table_meta(from);
            Ok(
                TableMeta {
                    columns: attribute_columns(attributes),
                    audience: meet_of(attributes),
                    provenance: clone_opt_key(&fm.provenance),
                },
            )
        },
        Rel::Selection { from, .. } | Rel::Offset { from, .. } | Rel::Limit { from, .. }
        | Rel::OrderBy { from, .. } | Rel::Distinct { from } => Ok(table_meta(from).clone()),
        Rel::Join { left, right, .. } => {
            let lm = table_meta(left);
            let rm = table_meta(right);
            let mut columns = clone_columns(&lm.columns);
            columns.extend(clone_columns(&rm.columns));
            Ok(
                TableMeta {
                    columns,
                    audience: keep_keys_in(&lm.audience, &rm.audience),
                    provenance: shared_source(&lm.provenance, &rm.provenance),
                },
            )
        },
        Rel::SetOperation { left, right, .. } => {
            let lm = table_meta(left);
            let rm = table_meta(right);
            match set_operation_columns(&lm.columns, &rm.columns) {
                Err(e) => Err(e),
                Ok(columns) => Ok(
                    TableMeta {
                        columns,
                        audience: keep_keys_in(&lm.audience, &rm.audience),
                        provenance: shared_source(&lm.provenance, &rm.provenance),
                    },
                ),
            }
        },
    }
}

/// An annotation computed at each node of an expression tree from the
/// annotations of its children.
pub trait ExprRepr: Sized {
    fn dot(node: &Expr) -> Result<Self, ValidateError>;
}

/// An annotation computed at each node of a relation tree from the
/// annotations of its children.
pub trait RelRepr: Sized {
    fn dot(node: &Rel) -> Result<Self, ValidateError>;
}

/// Something that may carry a name.
pub trait Named {
    fn name(&self) -> Option<String>;
}

impl ExprRepr for ExprMeta {
    fn dot(node: &Expr) -> Result<ExprMeta, ValidateError> {
        crate::meta::expr_dot(node)
    }
}

impl RelRepr for TableMeta {
    fn dot(node: &Rel) -> Result<TableMeta, ValidateError> {
        rel_dot(node)
    }
}

impl Named for ExprT {
    /// The alias of an aliased expression.
    fn name(&self) -> Option<String> {
        match &self.root {
            Expr::As { alias, .. } => Some(alias.clone()),
            _ => None,
        }
    }
}

impl RelT {
    /// Annotates `root` from the annotations of its children.
    pub fn lift(root: Rel) -> (r: RelT)
        ensures
            r@.root == root.view(),
            r@.board == spec_rel_dot(root.view()),
    {
        let board = rel_dot(&root);
        RelT { root, board }
    }

    pub fn is_leaf(&self) -> (r: bool)
        ensures
            r == (self.root is Table),
    {
        match &self.root {
            Rel::Table(_) => true,
            _ => false,
        }
    }
}

impl ExprT {
    /// Annotates `root` from the annotations of its children.
    pub fn lift(root: Expr) -> (r: ExprT)
        ensures
            r@.root == root.view(),
            r@.board == crate::meta::spec_expr_dot(root.view()),
    {
        let board = crate::meta::expr_dot(&root);
        ExprT { root, board }
    }

    pub fn is_leaf(&self) -> (r: bool)
        ensures
            r == ((self.root is Column) || (self.root is Literal)),
    {
        match &self.root {
            Expr::Column(_) | Expr::Literal(_) => true,
            _ => false,
        }
    }
}

} // verus!
