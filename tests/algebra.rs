use parallax_worker::bigquery::{
    table_ref_to_context_key, BigQueryExprT, BigQueryRelT, DatasetId, TableRef,
};
use parallax_worker::context::Context;
use parallax_worker::error::{ContextError, ValidateError};
use parallax_worker::expr::{BinaryOperator, Expr, ExprT, FunctionName, LiteralValue};
use parallax_worker::key::{matches_in, positional_alias, ContextKey};
use parallax_worker::meta::{expr_dot, AudienceBoard, DataType, ExprMeta, Mode, Taint};
use parallax_worker::policy::PolicyBinding;
use parallax_worker::policy::PolicyBudget;
use parallax_worker::rebase::rebase;
use parallax_worker::rel::{Rel, RelT, SetOperator, TableMeta};
use parallax_worker::transform::{best_candidate, Transformed};

fn key(path: &str) -> ContextKey {
    ContextKey::from_segments(path.split('.').map(|s| s.to_string()).collect())
}

fn lit(l: LiteralValue) -> ExprT {
    ExprT::lift(Expr::Literal(l))
}

fn text(s: &str) -> ExprT {
    lit(LiteralValue::StringLiteral(s.to_string()))
}

fn func(name: FunctionName, args: Vec<ExprT>) -> ExprT {
    ExprT::lift(Expr::Function { name, args, distinct: false })
}

fn meta(ty: DataType) -> ExprMeta {
    ExprMeta {
        ty,
        mode: Mode::Required,
        taint: Taint(false),
        audience: vec![],
        max_frequency: None,
        sensitivity: None,
    }
}

fn unannotated(root: Rel) -> RelT {
    RelT { root, board: Err(ValidateError::Internal("not annotated".to_string())) }
}

#[test]
fn key_parts() {
    let k = ContextKey::parse("project.dataset.table").ok().unwrap();
    assert_eq!(k.len(), 3);
    assert_eq!(k.name(), "table");
    assert_eq!(k.to_string(), "project.dataset.table");
    assert_eq!(ContextKey::with_name("b").with_prefix("a").to_string(), "a.b");
    assert!(key("a.b").prefix_matches(&key("a.b.c")));
    assert!(!key("a.c").prefix_matches(&key("a.b.c")));
    assert!(key("a.b.c").matches(&key("a.*.c")));
    assert!(!key("a.b.c").matches(&key("a.*")));
}

#[test]
fn key_with_empty_segment_is_rejected() {
    match ContextKey::parse("a..b") {
        Err(ValidateError::Expected(m)) => assert!(m.contains("a..b")),
        _ => panic!("an empty segment was accepted"),
    }
}

#[test]
fn matches_in_reads_patterns() {
    let fields = vec!["x.y".to_string(), "*".to_string()];
    assert!(matches_in(&fields, &key("z")).ok().unwrap());
    assert!(!matches_in(&vec!["x.y".to_string()], &key("z")).ok().unwrap());
    assert!(matches_in(&vec!["".to_string()], &key("z")).is_err());
}

#[test]
fn data_type_names() {
    assert_eq!(DataType::from_str("INTEGER").ok().unwrap(), DataType::Integer);
    match DataType::from_str("DECIMAL") {
        Err(ValidateError::UnknownType(t)) => assert_eq!(t, "DECIMAL"),
        _ => panic!("unknown type accepted"),
    }
    assert!(DataType::Float.is_numeric());
    assert!(!DataType::String.is_numeric());
}

#[test]
fn sum_of_strings_is_invalid() {
    let e = func(FunctionName::Sum, vec![text("a")]);
    match e.board {
        Err(ValidateError::InvalidType(expected, found)) => {
            assert_eq!(expected, "numeric type");
            assert_eq!(found, "String");
        }
        _ => panic!("sum of strings was typed"),
    }
}

#[test]
fn function_without_arguments_is_expected_error() {
    let e = func(FunctionName::Count, vec![]);
    match e.board {
        Err(ValidateError::Expected(m)) => assert_eq!(m, "function to have at least one argument"),
        _ => panic!("no error"),
    }
}

#[test]
fn column_cannot_be_annotated_alone() {
    match expr_dot(&Expr::Column(key("t.c"))) {
        Err(ValidateError::Internal(m)) => assert_eq!(m, "tried to complete a column t.c"),
        _ => panic!("column annotated"),
    }
}

#[test]
fn comparison_of_mixed_types_is_rejected() {
    let e = ExprT::lift(Expr::BinaryOp {
        left: Box::new(lit(LiteralValue::Long(1))),
        op: BinaryOperator::Eq,
        right: Box::new(text("1")),
    });
    assert!(matches!(e.board, Err(ValidateError::Expected(_))));
    let ok = ExprT::lift(Expr::BinaryOp {
        left: Box::new(lit(LiteralValue::Long(1))),
        op: BinaryOperator::Lt,
        right: Box::new(lit(LiteralValue::Long(2))),
    });
    let m = ok.board.unwrap();
    assert_eq!(m.ty, DataType::Boolean);
    assert_eq!(m.mode, Mode::Required);
}

#[test]
fn null_makes_parent_nullable() {
    let e = ExprT::lift(Expr::BinaryOp {
        left: Box::new(lit(LiteralValue::Long(1))),
        op: BinaryOperator::Plus,
        right: Box::new(lit(LiteralValue::Null)),
    });
    assert!(e.board.is_err());
    let c = func(FunctionName::Count, vec![lit(LiteralValue::Null)]);
    let m = c.board.unwrap();
    assert_eq!(m.ty, DataType::Integer);
    assert_eq!(m.mode, Mode::Nullable);
}

#[test]
fn column_lookup_distinguishes_absent_and_ambiguous() {
    let mut ctx: Context<u64> = Context::new();
    ctx.insert(key("a.id"), 1);
    ctx.insert(key("b.id"), 2);
    ctx.insert(key("b.name"), 3);
    assert_eq!(*ctx.get_column(&key("name")).ok().unwrap(), 3);
    assert!(matches!(ctx.get_column(&key("id")), Err(ContextError::Ambiguous(_))));
    assert!(matches!(ctx.get_column(&key("other")), Err(ContextError::NotFound(_))));
    assert_eq!(*ctx.get(&key("a.id")).ok().unwrap(), 1);
    ctx.insert(key("a.id"), 9);
    assert_eq!(ctx.len(), 3);
    assert_eq!(*ctx.value_at(0), 9);
}

fn two_tables() -> Context<TableMeta> {
    let mut left = Context::new();
    left.insert(ContextKey::with_name("x"), meta(DataType::Integer));
    let mut right = Context::new();
    right.insert(ContextKey::with_name("x"), meta(DataType::String));
    let mut schema = Context::new();
    schema.insert(key("d.l"), TableMeta { columns: left, audience: vec![], provenance: None });
    schema.insert(key("d.r"), TableMeta { columns: right, audience: vec![], provenance: None });
    schema
}

#[test]
fn set_operation_over_mismatched_schemas() {
    let schema = two_tables();
    let union = unannotated(Rel::SetOperation {
        left: Box::new(unannotated(Rel::Table(key("d.l")))),
        right: Box::new(unannotated(Rel::Table(key("d.r")))),
        op: SetOperator::Union,
    });
    match rebase(&schema, &union).board {
        Err(ValidateError::SchemaMismatch(k)) => assert_eq!(k, "x"),
        _ => panic!("mismatch not found"),
    }
    let same = unannotated(Rel::SetOperation {
        left: Box::new(unannotated(Rel::Table(key("d.l")))),
        right: Box::new(unannotated(Rel::Table(key("d.l")))),
        op: SetOperator::Union,
    });
    let m = rebase(&schema, &same).board.unwrap();
    assert_eq!(m.columns.len(), 1);
    assert!(m.provenance.unwrap().equals(&key("d.l")));
}

#[test]
fn unknown_table_is_an_error() {
    let schema = two_tables();
    match rebase(&schema, &unannotated(Rel::Table(key("d.zz")))).board {
        Err(ValidateError::Expected(m)) => assert_eq!(m, "a table named d.zz"),
        _ => panic!("unknown table accepted"),
    }
}

#[test]
fn projection_names_its_columns() {
    let schema = two_tables();
    let p = unannotated(Rel::Projection {
        attributes: vec![
            ExprT::lift(Expr::Column(ContextKey::with_name("x"))),
            ExprT::lift(Expr::As {
                expr: Box::new(lit(LiteralValue::Long(3))),
                alias: "three".to_string(),
            }),
            lit(LiteralValue::Boolean(true)),
        ],
        from: Box::new(unannotated(Rel::Table(key("d.l")))),
    });
    let m = rebase(&schema, &p).board.unwrap();
    assert_eq!(m.columns.key_at(0).to_string(), "f0_");
    assert_eq!(m.columns.key_at(1).to_string(), "three");
    assert_eq!(m.columns.key_at(2).to_string(), "f2_");
    assert!(!m.columns.value_at(0).taint.0);
    assert!(!m.columns.value_at(1).taint.0);
    assert_eq!(m.columns.value_at(1).ty, DataType::Integer);
    assert_eq!(positional_alias(12), "f12_");
}

fn candidate(priority: u64, cost: u64, tag: i64) -> Transformed<i64> {
    Transformed::new(tag, &key("b"), cost, priority)
}

#[test]
fn best_candidate_order() {
    assert!(best_candidate::<i64>(vec![]).is_none());
    let best = best_candidate(vec![candidate(1, 0, 1), candidate(2, 5, 2), candidate(2, 3, 3)]);
    assert_eq!(best.unwrap().root, 3);
    let tie = best_candidate(vec![candidate(2, 3, 1), candidate(2, 3, 2)]);
    assert_eq!(tie.unwrap().root, 1);
}

#[test]
fn costs_add_up() {
    let mut acc: Context<u64> = Context::new();
    acc.insert(key("a"), 2);
    let mut t = candidate(0, 3, 0);
    t.cost.insert(key("c"), 1);
    t.add_to(&mut acc);
    assert_eq!(*acc.get(&key("a")).ok().unwrap(), 2);
    assert_eq!(*acc.get(&key("b")).ok().unwrap(), 3);
    assert_eq!(*acc.get(&key("c")).ok().unwrap(), 1);
    let sum = Transformed { root: 0, cost: acc, priority: 0 };
    assert_eq!(sum.total_cost(), 6);
    let big = candidate(0, u64::MAX, 0);
    let mut both = Context::new();
    big.add_to(&mut both);
    big.add_to(&mut both);
    assert_eq!(*both.get(&key("b")).ok().unwrap(), u64::MAX);
}

#[test]
fn budget_check() {
    let b = PolicyBinding { policies: vec![], priority: 0, budget: Some(PolicyBudget { maximum: 10, used: 4 }) };
    assert!(b.is_in_budget(6));
    assert!(!b.is_in_budget(7));
    let free = PolicyBinding { policies: vec![], priority: 0, budget: None };
    assert!(free.is_in_budget(u64::MAX));
}

#[test]
fn audience_board_keeps_higher_level() {
    let mut b = AudienceBoard::from_iter(vec![(key("g.a"), 1), (key("g.b"), 5)]);
    b.insert(key("g.a"), 3);
    b.insert(key("g.b"), 2);
    let mut other = AudienceBoard::default();
    other.insert(key("g.b"), 7);
    b.intersect(&other);
    let inner = b.into_inner();
    assert_eq!(inner.len(), 1);
    assert!(inner.key_at(0).equals(&key("g.b")));
    assert_eq!(*inner.value_at(0), 7);
}

#[test]
fn bigquery_hash_uses_base64_salt() {
    let col = ExprT::lift(Expr::Column(ContextKey::with_name("name")));
    let h = ExprT::lift(Expr::Hash {
        algo: parallax_worker::expr::HashAlgorithm::SHA256,
        expr: Box::new(col),
        salt: "abc".to_string(),
    });
    let sql = BigQueryExprT::wrap(h).to_ansatz();
    assert_eq!(sql, "TO_BASE64(SHA256(CONCAT('YWJj', name)))");
}

#[test]
fn bigquery_tables_and_datasets() {
    let tr = TableRef {
        project_id: "p".to_string(),
        dataset_id: "d".to_string(),
        table_id: "t".to_string(),
    };
    assert_eq!(table_ref_to_context_key(&tr).to_string(), "p.d.t");
    let ds = DatasetId { project_id: "p".to_string(), dataset_id: "d".to_string() };
    let staging = DatasetId::staging(&ds, "", "cache");
    assert_eq!(staging.project_id, "p");
    assert_eq!(staging.dataset_id, "cache");
    assert_eq!(ds.table_ref(&key("x.y.people")).table_id, "people");
    assert_eq!(ds.into_ident(), vec!["p".to_string(), "d".to_string()]);
}

#[test]
fn bigquery_lowers_a_sole_table_and_a_projection() {
    let mut refs: Context<TableRef> = Context::new();
    refs.insert(
        key("yelp.business"),
        TableRef {
            project_id: "proj".to_string(),
            dataset_id: "yelp".to_string(),
            table_id: "business".to_string(),
        },
    );
    let table = unannotated(Rel::Table(key("yelp.business")));
    assert_eq!(
        BigQueryRelT::wrap(table, &refs).to_ansatz().ok().unwrap(),
        "SELECT * FROM `proj.yelp.business`"
    );
    let p = unannotated(Rel::Limit {
        from: Box::new(unannotated(Rel::Projection {
            attributes: vec![ExprT::lift(Expr::Column(ContextKey::with_name("stars")))],
            from: Box::new(unannotated(Rel::Table(key("yelp.business")))),
        })),
        n: 10,
    });
    assert_eq!(
        BigQueryRelT::wrap(p, &refs).to_ansatz().ok().unwrap(),
        "SELECT * FROM (SELECT stars FROM (SELECT * FROM `proj.yelp.business`)) LIMIT 10"
    );
    let missing = unannotated(Rel::Table(key("yelp.review")));
    assert_eq!(
        BigQueryRelT::wrap(missing, &refs).to_ansatz().err().unwrap(),
        "no table is bound to yelp.review"
    );
}

#[test]
fn quotes_in_literals_are_doubled() {
    let e = text("O'Brien");
    assert_eq!(BigQueryExprT::wrap(e).to_ansatz(), "'O''Brien'");
}

#[test]
fn error_texts_name_types_and_operators_as_displayed() {
    let e = ExprT::lift(Expr::BinaryOp {
        left: Box::new(text("a")),
        op: BinaryOperator::Plus,
        right: Box::new(lit(LiteralValue::Long(1))),
    });
    match e.board {
        Err(ValidateError::Expected(m)) => assert_eq!(
            m,
            "the type of both arguments of a binary arithmetic operator expression with operator `Plus` to both be numeric"
        ),
        _ => panic!("no error"),
    }
    let c = func(FunctionName::Concat, vec![lit(LiteralValue::Long(1))]);
    match c.board {
        Err(ValidateError::InvalidType(expected, found)) => {
            assert_eq!(expected, "string type");
            assert_eq!(found, "Integer");
        }
        _ => panic!("no error"),
    }
}
