use vstd::prelude::*;

use crate::error::{ValidateError, ValidateErrorV};
use crate::expr::{Expr, ExprT, ExprTV, ExprV, HashAlgorithm, LiteralValue, LiteralValueV};
use crate::key::{key_name, matches_in, spec_matches_in};
use crate::meta::spec_expr_dot;

verus! {

pub open spec fn texts(v: Seq<String>) -> Seq<Seq<char>> {
    v.map_values(|s: String| s@)
}

/// Columns whose key matches one of `fields` are kept as they are.
pub struct WhitelistPolicy {
    pub fields: Vec<String>,
}

/// Columns whose key matches one of `fields` are replaced by a salted hash.
pub struct HashPolicy {
    pub fields: Vec<String>,
    pub salt: String,
}

/// Columns whose key matches one of `fields` are replaced by `NULL`.
pub struct ObfuscatePolicy {
    pub fields: Vec<String>,
}

/// Aggregates are released only for groups of more than
/// `minimum_bucket_size` distinct entities.
pub struct AggregationPolicy {
    pub entity: String,
    pub minimum_bucket_size: u64,
}

/// Aggregates are released with Laplace noise; `epsilon` is spent for each
/// noised aggregate, in the same integer units as budgets.
pub struct DifferentialPrivacyPolicy {
    pub entity: String,
    pub epsilon: u64,
    pub bucket_size: u64,
}

pub enum Policy {
    Whitelist(WhitelistPolicy),
    Hash(HashPolicy),
    Obfuscate(ObfuscatePolicy),
    Aggregation(AggregationPolicy),
    DifferentialPrivacy(DifferentialPrivacyPolicy),
}

pub struct PolicyBudget {
    pub maximum: u64,
    pub used: u64,
}

/// Policies attached to a key, with the priority of the attachment and an
/// optional budget.
pub struct PolicyBinding {
    pub policies: Vec<Policy>,
    pub priority: u64,
    pub budget: Option<PolicyBudget>,
}

pub struct PolicyBindingV {
    pub n_policies: nat,
    pub priority: u64,
    pub budget: Option<(u64, u64)>,
}

impl View for PolicyBinding {
    type V = PolicyBindingV;

    open spec fn view(&self) -> PolicyBindingV {
        PolicyBindingV {
            n_policies: self.policies@.len(),
            priority: self.priority,
            budget: match self.budget {
                Some(b) => Some((b.maximum, b.used)),
                None => None,
            },
        }
    }
}

/// A proposal that spends `cost` fits the budget: `used + cost <= maximum`.
pub open spec fn spec_in_budget(budget: Option<(u64, u64)>, cost: u64) -> bool {
    match budget {
        Some((maximum, used)) => used + cost <= maximum,
        None => true,
    }
}

impl PolicyBinding {
    pub fn is_in_budget(&self, proposed: u64) -> (r: bool)
        ensures
            r == spec_in_budget(self@.budget, proposed),
    {
        match &self.budget {
            Some(b) => b.used <= b.maximum && proposed <= b.maximum - b.used,
            None => true,
        }
    }
}

/// Why a policy did not produce a rewrite.
#[derive(Debug)]
pub enum Error {
    /// The policy does not apply here; not a failure.
    NoMatch,
    /// Annotating a rewritten tree failed.
    Validate(ValidateError),
}

pub enum ErrorV {
    NoMatch,
    Validate(ValidateErrorV),
}

impl View for Error {
    type V = ErrorV;

    open spec fn view(&self) -> ErrorV {
        match self {
            Error::NoMatch => ErrorV::NoMatch,
            Error::Validate(e) => ErrorV::Validate(e@),
        }
    }
}

impl Error {
    pub fn from(e: ValidateError) -> (r: Error)
        ensures
            r@ == ErrorV::Validate(e@),
    {
        Error::Validate(e)
    }
}

/// A rewrite together with the privacy cost it spends.
pub struct Costly<T> {
    pub root: T,
    pub cost: u64,
}

impl<T> Costly<T> {
    pub fn from(root: T) -> (r: Costly<T>)
        ensures
            r.root == root,
            r.cost == 0,
    {
        Costly { root, cost: 0 }
    }
}

/// The tree `root` annotated from its children.
pub open spec fn lifted(root: ExprV) -> ExprTV {
    ExprTV { root, board: spec_expr_dot(root) }
}

/// What an expression policy over `fields` proposes for `e`: `rewrite` when
/// `e` is a column whose key matches a field, `NoMatch` for another
/// expression or key, and the error of a field that is no key pattern.
pub open spec fn field_rewrite(fields: Seq<Seq<char>>, e: ExprTV, rewrite: ExprTV) -> Result<ExprTV, ErrorV> {
    match e.root {
        ExprV::Column(k) => match spec_matches_in(fields, k) {
            Err(x) => Err(ErrorV::Validate(x)),
            Ok(true) => Ok(rewrite),
            Ok(false) => Err(ErrorV::NoMatch),
        },
        _ => Err(ErrorV::NoMatch),
    }
}

pub open spec fn hashed(e: ExprTV, salt: Seq<char>) -> ExprTV {
    lifted(
        ExprV::As {
            expr: Box::new(
                lifted(ExprV::Hash { algo: HashAlgorithm::SHA256, expr: Box::new(e), salt }),
            ),
            alias: key_name(e.root->Column_0),
        },
    )
}

pub open spec fn obfuscated(e: ExprTV) -> ExprTV {
    lifted(
        ExprV::As {
            expr: Box::new(lifted(ExprV::Literal(LiteralValueV::Null))),
            alias: key_name(e.root->Column_0),
        },
    )
}

pub open spec fn costly_view(r: Result<Costly<ExprT>, Error>) -> Result<(ExprTV, u64), ErrorV> {
    match r {
        Ok(c) => Ok((c.root@, c.cost)),
        Err(e) => Err(e@),
    }
}

pub open spec fn zero_cost(r: Result<ExprTV, ErrorV>) -> Result<(ExprTV, u64), ErrorV> {
    match r {
        Ok(t) => Ok((t, 0u64)),
        Err(e) => Err(e),
    }
}

/// Runs `matches_in` on the key of a column; anything else is `NoMatch`.
fn column_matches(fields: &Vec<String>, expr: &ExprT) -> (r: Result<bool, Error>)
    ensures
        match r {
            Ok(b) => (expr@.root is Column) && spec_matches_in(texts(fields@), expr@.root->Column_0) == Ok::<bool, ValidateErrorV>(b),
            Err(e) => match expr@.root {
                ExprV::Column(k) => (spec_matches_in(texts(fields@), k) is Err) && e@ == ErrorV::Validate(spec_matches_in(texts(fields@), k)->Err_0),
                _ => e@ == ErrorV::NoMatch,
            },
        },
{
    match &expr.root {
        Expr::Column(k) => {
            assert(expr@.root == ExprV::Column(k@));
            match matches_in(fields, k) {
                Ok(b) => Ok(b),
                Err(x) => Err(Error::Validate(x)),
            }
        },
        _ => Err(Error::NoMatch),
    }
}

impl WhitelistPolicy {
    pub fn transform_expr(&self, expr: &ExprT) -> (r: Result<Costly<ExprT>, Error>)
        ensures
            costly_view(r) == zero_cost(field_rewrite(texts(self.fields@), expr@, expr@)),
    {
        match column_matches(&self.fields, expr) {
            Ok(true) => Ok(Costly::from(expr.clone())),
            Ok(false) => Err(Error::NoMatch),
            Err(e) => Err(e),
        }
    }
}

impl HashPolicy {
    pub fn transform_expr(&self, expr: &ExprT) -> (r: Result<Costly<ExprT>, Error>)
        ensures
            costly_view(r) == zero_cost(
                field_rewrite(texts(self.fields@), expr@, hashed(expr@, self.salt@)),
            ),
    {
        match column_matches(&self.fields, expr) {
            Ok(true) => {
                let name = match &expr.root {
                    Expr::Column(k) => String::from_str(k.name()),
                    _ => String::new(),
                };
                let hash = ExprT::lift(
                    Expr::Hash {
                        algo: HashAlgorithm::default(),
                        expr: Box::new(expr.clone()),
                        salt: self.salt.clone(),
                    },
                );
                let root = ExprT::lift(Expr::As { expr: Box::new(hash), alias: name });
                Ok(Costly::from(root))
            },
            Ok(false) => Err(Error::NoMatch),
            Err(e) => Err(e),
        }
    }
}

impl ObfuscatePolicy {
    pub fn transform_expr(&self, expr: &ExprT) -> (r: Result<Costly<ExprT>, Error>)
        ensures
            costly_view(r) == zero_cost(field_rewrite(texts(self.fields@), expr@, obfuscated(expr@))),
    {
        match column_matches(&self.fields, expr) {
            Ok(true) => {
                let name = match &expr.root {
                    Expr::Column(k) => String::from_str(k.name()),
                    _ => String::new(),
                };
                let null = ExprT::lift(Expr::Literal(LiteralValue::Null));
                let root = ExprT::lift(Expr::As { expr: Box::new(null), alias: name });
                Ok(Costly::from(root))
            },
            Ok(false) => Err(Error::NoMatch),
            Err(e) => Err(e),
        }
    }
}

/// A policy that may rewrite a single expression.
pub trait ExprTransform {
    fn transform_expr(&self, expr: &ExprT) -> Result<Costly<ExprT>, Error>;
}

impl ExprTransform for WhitelistPolicy {
    fn transform_expr(&self, expr: &ExprT) -> Result<Costly<ExprT>, Error> {
        WhitelistPolicy::transform_expr(self, expr)
    }
}

impl ExprTransform for HashPolicy {
    fn transform_expr(&self, expr: &ExprT) -> Result<Costly<ExprT>, Error> {
        HashPolicy::transform_expr(self, expr)
    }
}

impl ExprTransform for ObfuscatePolicy {
    fn transform_expr(&self, expr: &ExprT) -> Result<Costly<ExprT>, Error> {
        ObfuscatePolicy::transform_expr(self, expr)
    }
}

/// What policy `p` proposes for the expression `e`; the relational policies
/// never rewrite a single expression.
pub open spec fn spec_policy_expr(p: Policy, e: ExprTV) -> Result<(ExprTV, u64), ErrorV> {
    match p {
        Policy::Whitelist(w) => zero_cost(field_rewrite(texts(w.fields@), e, e)),
        Policy::Hash(h) => zero_cost(field_rewrite(texts(h.fields@), e, hashed(e, h.salt@))),
        Policy::Obfuscate(o) => zero_cost(field_rewrite(texts(o.fields@), e, obfuscated(e))),
        _ => Err(ErrorV::NoMatch),
    }
}

impl Policy {
    pub fn transform_expr(&self, expr: &ExprT) -> (r: Result<Costly<ExprT>, Error>)
        ensures
            costly_view(r) == spec_policy_expr(*self, expr@),
    {
        match self {
            Policy::Whitelist(w) => w.transform_expr(expr),
            Policy::Hash(h) => h.transform_expr(expr),
            Policy::Obfuscate(o) => o.transform_expr(expr),
            _ => Err(Error::NoMatch),
        }
    }
}

impl ExprTransform for Policy {
    fn transform_expr(&self, expr: &ExprT) -> Result<Costly<ExprT>, Error> {
        Policy::transform_expr(self, expr)
    }
}

} // verus!
