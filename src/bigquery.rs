use vstd::prelude::*;

use crate::ansatz::{comma_list, expr_sql, sql_each, sql_expr};
use crate::context::{spec_get, Context};
use crate::expr::{expr_views, lemma_expr_views, ExprT, ExprTV};
use crate::key::{decimal, decimal_text, key_name, key_text, ContextKey};
use crate::rel::{JoinKind, Rel, RelT, RelTV, RelV, SetOperator};

verus! {

/// Bounds of a column's values, as the backend reports them.
pub struct ExprExtraMeta {
    pub min: String,
    pub max: String,
}

/// A BigQuery dataset: a project and a dataset in it.
pub struct DatasetId {
    pub project_id: String,
    pub dataset_id: String,
}

/// A BigQuery table: project, dataset and table.
pub struct TableRef {
    pub project_id: String,
    pub dataset_id: String,
    pub table_id: String,
}

impl View for TableRef {
    type V = (Seq<char>, Seq<char>, Seq<char>);

    open spec fn view(&self) -> (Seq<char>, Seq<char>, Seq<char>) {
        (self.project_id@, self.dataset_id@, self.table_id@)
    }
}

impl DatasetId {
    /// The identifier of the dataset: project, then dataset.
    pub fn into_ident(self) -> (r: Vec<String>)
        ensures
            r@.map_values(|s: String| s@) == seq![self.project_id@, self.dataset_id@],
    {
        let mut v: Vec<String> = Vec::new();
        let ghost p = self.project_id@;
        let ghost d = self.dataset_id@;
        v.push(self.project_id);
        v.push(self.dataset_id);
        assert(v@.map_values(|s: String| s@) =~= seq![p, d]);
        v
    }

    /// The dataset where results are staged: each part that is not given
    /// falls back to the one of the source dataset.
    pub fn staging(source: &DatasetId, staging_project_id: &str, staging_dataset_id: &str) -> (r: DatasetId)
        ensures
            r.project_id@ == (if staging_project_id@.len() == 0 {
                source.project_id@
            } else {
                staging_project_id@
            }),
            r.dataset_id@ == (if staging_dataset_id@.len() == 0 {
                source.dataset_id@
            } else {
                staging_dataset_id@
            }),
    {
        let project_id = if staging_project_id.unicode_len() == 0 {
            source.project_id.clone()
        } else {
            staging_project_id.to_owned()
        };
        let dataset_id = if staging_dataset_id.unicode_len() == 0 {
            source.dataset_id.clone()
        } else {
            staging_dataset_id.to_owned()
        };
        DatasetId { project_id, dataset_id }
    }

    /// The table of this dataset named by the last segment of `key`.
    pub fn table_ref(&self, key: &ContextKey) -> (r: TableRef)
        ensures
            r@ == (self.project_id@, self.dataset_id@, key_name(key@)),
    {
        TableRef {
            project_id: self.project_id.clone(),
            dataset_id: self.dataset_id.clone(),
            table_id: String::from_str(key.name()),
        }
    }
}

/// The key `project.dataset.table` of a table.
pub fn table_ref_to_context_key(table_ref: &TableRef) -> (r: ContextKey)
    ensures
        r@ == seq![table_ref@.0, table_ref@.1, table_ref@.2],
{
    let r = ContextKey::with_name(table_ref.table_id.as_str()).and_prefix(
        table_ref.dataset_id.as_str(),
    ).and_prefix(table_ref.project_id.as_str());
    assert(r@ =~= seq![table_ref@.0, table_ref@.1, table_ref@.2]);
    r
}

pub open spec fn join_text(k: JoinKind) -> Seq<char> {
    match k {
        JoinKind::Inner => "JOIN"@,
        JoinKind::LeftOuter => "LEFT OUTER JOIN"@,
        JoinKind::RightOuter => "RIGHT OUTER JOIN"@,
        JoinKind::FullOuter => "FULL OUTER JOIN"@,
        JoinKind::Cross => "CROSS JOIN"@,
    }
}

pub open spec fn set_text(op: SetOperator) -> Seq<char> {
    match op {
        SetOperator::Union => "UNION DISTINCT"@,
        SetOperator::Except => "EXCEPT DISTINCT"@,
        SetOperator::Intersect => "INTERSECT DISTINCT"@,
    }
}

pub open spec fn exprs_text(s: Seq<ExprTV>) -> Seq<char> {
    comma_list(sql_each(s, true))
}

pub open spec fn from_text(inner: Seq<char>) -> Seq<char> {
    " FROM ("@ + inner + ")"@
}

/// The BigQuery SQL text of a relation: each node is a query over the query
/// of its children, and each table is written with the full BigQuery
/// identifier that `refs` binds its key to.
pub open spec fn sql_rel(t: RelTV, refs: Seq<(Seq<Seq<char>>, (Seq<char>, Seq<char>, Seq<char>))>) -> Result<Seq<char>, Seq<char>>
    decreases t,
{
    match t.root {
        RelV::Table(k) => match spec_get(refs, k) {
            Ok(tr) => Ok("SELECT * FROM `"@ + key_text(seq![tr.0, tr.1, tr.2]) + "`"@),
            Err(_) => Err("no table is bound to "@ + key_text(k)),
        },
        RelV::WithAlias { from, alias } => match sql_rel(*from, refs) {
            Ok(f) => Ok("SELECT *"@ + from_text(f) + " AS "@ + alias),
            Err(e) => Err(e),
        },
        RelV::Projection { attributes, from } => match sql_rel(*from, refs) {
            Ok(f) => Ok("SELECT "@ + exprs_text(attributes) + from_text(f)),
            Err(e) => Err(e),
        },
        RelV::Aggregation { attributes, group_by, from } => match sql_rel(*from, refs) {
            Ok(f) => Ok(
                "SELECT "@ + exprs_text(attributes) + from_text(f) + if group_by.len() == 0 {
                    Seq::empty()
                } else {
                    " GROUP BY "@ + exprs_text(group_by)
                },
            ),
            Err(e) => Err(e),
        },
        RelV::Selection { from, where_ } => match sql_rel(*from, refs) {
            Ok(f) => Ok("SELECT *"@ + from_text(f) + " WHERE "@ + sql_expr(*where_, true)),
            Err(e) => Err(e),
        },
        RelV::Offset { from, n } => match sql_rel(*from, refs) {
            Ok(f) => Ok("SELECT *"@ + from_text(f) + " OFFSET "@ + decimal(n as nat)),
            Err(e) => Err(e),
        },
        RelV::Limit { from, n } => match sql_rel(*from, refs) {
            Ok(f) => Ok("SELECT *"@ + from_text(f) + " LIMIT "@ + decimal(n as nat)),
            Err(e) => Err(e),
        },
        RelV::OrderBy { from, keys } => match sql_rel(*from, refs) {
            Ok(f) => Ok("SELECT *"@ + from_text(f) + " ORDER BY "@ + exprs_text(keys)),
            Err(e) => Err(e),
        },
        RelV::Distinct { from } => match sql_rel(*from, refs) {
            Ok(f) => Ok("SELECT DISTINCT *"@ + from_text(f)),
            Err(e) => Err(e),
        },
        RelV::Join { left, right, kind, on } => match sql_rel(*left, refs) {
            Err(e) => Err(e),
            Ok(l) => match sql_rel(*right, refs) {
                Err(e) => Err(e),
                Ok(r) => Ok(
                    "SELECT *"@ + from_text(l) + " "@ + join_text(kind) + " ("@ + r + ")"@ + match on {
                        Some(x) => " ON "@ + sql_expr(*x, true),
                        None => Seq::empty(),
                    },
                ),
            },
        },
        RelV::SetOperation { left, right, op } => match sql_rel(*left, refs) {
            Err(e) => Err(e),
            Ok(l) => match sql_rel(*right, refs) {
                Err(e) => Err(e),
                Ok(r) => Ok("("@ + l + ") "@ + set_text(op) + " ("@ + r + ")"@),
            },
        },
    }
}

fn exprs_sql(v: &Vec<ExprT>) -> (r: String)
    ensures
        r@ == exprs_text(expr_views(v@)),
{
    let mut out = String::new();
    let mut i: usize = 0;
    proof {
        lemma_expr_views(v@);
    }
    let ghost vs = expr_views(v@);
    assert(vs.subrange(0, 0) =~= Seq::<ExprTV>::empty());
    while i < v.len()
        invariant
            vs == expr_views(v@),
            vs.len() == v@.len(),
            forall|q: int| 0 <= q < v@.len() ==> #[trigger] vs[q] == v@[q]@,
            i <= v@.len(),
            out@ == comma_list(sql_each(vs.subrange(0, i as int), true)),
        decreases v@.len() - i,
    {
        let t = expr_sql(&v[i], true);
        let ghost before = out@;
        if i > 0 {
            out.append(", ");
        }
        out.append(t.as_str());
        proof {
            let s = vs.subrange(0, i + 1);
            assert(s.drop_last() =~= vs.subrange(0, i as int));
            crate::ansatz::lemma_sql_each_len(s, true);
            let e = sql_each(s, true);
            assert(e.drop_last() =~= sql_each(vs.subrange(0, i as int), true));
            if i == 0 {
                assert(out@ =~= t@);
            } else {
                assert(out@ =~= before + ", "@ + t@);
            }
            assert(out@ =~= comma_list(sql_each(s, true)));
        }
        i += 1;
    }
    proof {
        assert(vs.subrange(0, vs.len() as int) =~= vs);
    }
    out
}

/// A relation to be written for BigQuery, with the tables its keys stand for.
pub struct BigQueryRelT<'a> {
    pub root: RelT,
    pub ctx: &'a Context<TableRef>,
}

impl<'a> BigQueryRelT<'a> {
    pub fn wrap(root: RelT, ctx: &'a Context<TableRef>) -> (r: Self)
        ensures
            r.root == root,
            r.ctx == ctx,
    {
        BigQueryRelT { root, ctx }
    }

    /// The BigQuery SQL text of the relation, or the key of a table that
    /// `ctx` does not bind.
    pub fn to_ansatz(self) -> (r: Result<String, String>)
        ensures
            match (r, sql_rel(self.root@, self.ctx@)) {
                (Ok(s), Ok(t)) => s@ == t,
                (Err(s), Err(t)) => s@ == t,
                _ => false,
            },
    {
        rel_sql(&self.root, self.ctx)
    }
}

fn box_rel_sql(b: &Box<RelT>, refs: &Context<TableRef>) -> (r: Result<String, String>)
    ensures
        match (r, sql_rel(b@, refs@)) {
            (Ok(s), Ok(t)) => s@ == t,
            (Err(s), Err(t)) => s@ == t,
            _ => false,
        },
    decreases b, 1int,
{
    rel_sql(&**b, refs)
}

#[verifier::rlimit(60)]
#[verifier::spinoff_prover]
fn rel_sql(t: &RelT, refs: &Context<TableRef>) -> (r: Result<String, String>)
    ensures
        match (r, sql_rel(t@, refs@)) {
            (Ok(s), Ok(u)) => s@ == u,
            (Err(s), Err(u)) => s@ == u,
            _ => false,
        },
    decreases t, 0int,
{
    proof {
        assert(decreases_to!(t => t.root));
    }
    let r = match &t.root {
        Rel::Table(k) => match refs.get(k) {
            Ok(tr) => {
                let bq_key = table_ref_to_context_key(tr);
                let s = String::from_str("SELECT * FROM `").concat(bq_key.to_string().as_str()).concat("`");
                Ok(s)
            },
            Err(_) => Err(String::from_str("no table is bound to ").concat(k.to_string().as_str())),
        },
        Rel::WithAlias { from, alias } => match box_rel_sql(from, refs) {
            Ok(f) => Ok(String::from_str("SELECT *").concat(" FROM (").concat(f.as_str()).concat(")").concat(" AS ").concat(alias.as_str())),
            Err(e) => Err(e),
        },
        Rel::Projection { attributes, from } => match box_rel_sql(from, refs) {
            Ok(f) => Ok(String::from_str("SELECT ").concat(exprs_sql(attributes).as_str()).concat(" FROM (").concat(f.as_str()).concat(")")),
            Err(e) => Err(e),
        },
        Rel::Aggregation { attributes, group_by, from } => match box_rel_sql(from, refs) {
            Ok(f) => {
                let s = String::from_str("SELECT ").concat(exprs_sql(attributes).as_str()).concat(" FROM (").concat(f.as_str()).concat(")");
                if group_by.len() == 0 {
                    proof {
                        lemma_expr_views(group_by@);
                    }
                    Ok(s)
                } else {
                    proof {
                        lemma_expr_views(group_by@);
                    }
                    Ok(s.concat(" GROUP BY ").concat(exprs_sql(group_by).as_str()))
                }
            },
            Err(e) => Err(e),
        },
        Rel::Selection { from, where_ } => match box_rel_sql(from, refs) {
            Ok(f) => Ok(String::from_str("SELECT *").concat(" FROM (").concat(f.as_str()).concat(")").concat(" WHERE ").concat(expr_sql(where_, true).as_str())),
            Err(e) => Err(e),
        },
        Rel::Offset { from, n } => match box_rel_sql(from, refs) {
            Ok(f) => Ok(String::from_str("SELECT *").concat(" FROM (").concat(f.as_str()).concat(")").concat(" OFFSET ").concat(decimal_text(*n).as_str())),
            Err(e) => Err(e),
        },
        Rel::Limit { from, n } => match box_rel_sql(from, refs) {
            Ok(f) => Ok(String::from_str("SELECT *").concat(" FROM (").concat(f.as_str()).concat(")").concat(" LIMIT ").concat(decimal_text(*n).as_str())),
            Err(e) => Err(e),
        },
        Rel::OrderBy { from, keys } => match box_rel_sql(from, refs) {
            Ok(f) => Ok(String::from_str("SELECT *").concat(" FROM (").concat(f.as_str()).concat(")").concat(" ORDER BY ").concat(exprs_sql(keys).as_str())),
            Err(e) => Err(e),
        },
        Rel::Distinct { from } => match box_rel_sql(from, refs) {
            Ok(f) => Ok(String::from_str("SELECT DISTINCT *").concat(" FROM (").concat(f.as_str()).concat(")")),
            Err(e) => Err(e),
        },
        Rel::Join { left, right, kind, on } => {
            let l = match box_rel_sql(left, refs) {
                Ok(l) => l,
                Err(e) => {
                    return Err(e);
                },
            };
            let r = match box_rel_sql(right, refs) {
                Ok(r) => r,
                Err(e) => {
                    return Err(e);
                },
            };
            let kw = match kind {
                JoinKind::Inner => "JOIN",
                JoinKind::LeftOuter => "LEFT OUTER JOIN",
                JoinKind::RightOuter => "RIGHT OUTER JOIN",
                JoinKind::FullOuter => "FULL OUTER JOIN",
                JoinKind::Cross => "CROSS JOIN",
            };
            let s = String::from_str("SELECT *").concat(" FROM (").concat(l.as_str()).concat(")").concat(" ").concat(kw).concat(" (").concat(r.as_str()).concat(")");
            match on {
                Some(x) => Ok(s.concat(" ON ").concat(expr_sql(x, true).as_str())),
                None => Ok(s),
            }
        },
        Rel::SetOperation { left, right, op } => {
            let l = match box_rel_sql(left, refs) {
                Ok(l) => l,
                Err(e) => {
                    return Err(e);
                },
            };
            let r = match box_rel_sql(right, refs) {
                Ok(r) => r,
                Err(e) => {
                    return Err(e);
                },
            };
            let kw = match op {
                SetOperator::Union => "UNION DISTINCT",
                SetOperator::Except => "EXCEPT DISTINCT",
                SetOperator::Intersect => "INTERSECT DISTINCT",
            };
            Ok(String::from_str("(").concat(l.as_str()).concat(") ").concat(kw).concat(" (").concat(r.as_str()).concat(")"))
        },
    };
    proof {
        if (r is Ok) && (sql_rel(t@, refs@) is Ok) {
            assert(r->Ok_0@ =~= sql_rel(t@, refs@)->Ok_0);
        }
    }
    r
}

/// An expression to be written for BigQuery.
pub struct BigQueryExprT {
    pub root: ExprT,
}

impl BigQueryExprT {
    pub fn wrap(root: ExprT) -> (r: Self)
        ensures
            r.root == root,
    {
        BigQueryExprT { root }
    }

    /// The BigQuery SQL text of the expression: the standard text, but a hash
    /// is `TO_BASE64(SHA256(CONCAT('<salt in base64>', <expr>)))`.
    pub fn to_ansatz(self) -> (r: String)
        ensures
            r@ == sql_expr(self.root@, true),
    {
        expr_sql(&self.root, true)
    }
}

} // verus!
