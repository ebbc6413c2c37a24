use parallax_worker::context::Context;
use parallax_worker::error::ValidateError;
use parallax_worker::expr::{Expr, ExprT, FunctionName, LiteralValue};
use parallax_worker::key::ContextKey;
use parallax_worker::meta::{DataType, ExprMeta, Mode, Taint};
use parallax_worker::policy::{
    AggregationPolicy, DifferentialPrivacyPolicy, Error, HashPolicy, ObfuscatePolicy, Policy,
    PolicyBinding, PolicyBudget, WhitelistPolicy,
};
use parallax_worker::rebase::rebase;
use parallax_worker::rel::{Rel, RelT, TableMeta};
use parallax_worker::transform::{RelTransformer, Transformed};

fn key(path: &str) -> ContextKey {
    ContextKey::from_segments(path.split('.').map(|s| s.to_string()).collect())
}

fn column_meta(ty: DataType, max_frequency: u64) -> ExprMeta {
    ExprMeta {
        ty,
        mode: Mode::Required,
        taint: Taint(false),
        audience: vec![],
        max_frequency: Some(max_frequency),
        sensitivity: Some(1),
    }
}

fn table(columns: &[(&str, DataType)]) -> TableMeta {
    let mut ctx = Context::new();
    for (name, ty) in columns {
        ctx.insert(ContextKey::with_name(name), column_meta(*ty, 3));
    }
    TableMeta { columns: ctx, audience: vec![], provenance: None }
}

fn schema() -> Context<TableMeta> {
    let mut ctx = Context::new();
    ctx.insert(
        key("patient_data.person"),
        table(&[("person_id", DataType::Integer), ("gender_concept_id", DataType::Integer)]),
    );
    ctx.insert(
        key("patient_data.vocabulary"),
        table(&[("vocabulary_id", DataType::String)]),
    );
    ctx.insert(
        key("patient_data.location"),
        table(&[
            ("location_id", DataType::Integer),
            ("address_1", DataType::String),
            ("state", DataType::String),
            ("person_id", DataType::Integer),
        ]),
    );
    ctx.insert(
        key("patient_data.care_site"),
        table(&[("care_site_name", DataType::String)]),
    );
    ctx
}

fn fields(names: &[&str]) -> Vec<String> {
    names.iter().map(|s| s.to_string()).collect()
}

fn binding(policy: Policy) -> PolicyBinding {
    PolicyBinding { policies: vec![policy], priority: 1, budget: None }
}

/// The policies that the group `wheel` is bound by.
fn policies_for_wheel() -> Context<PolicyBinding> {
    let mut ctx = Context::new();
    ctx.insert(
        key("patient_data.vocabulary"),
        binding(Policy::Whitelist(WhitelistPolicy { fields: fields(&["vocabulary_id"]) })),
    );
    ctx.insert(
        key("patient_data.location"),
        PolicyBinding {
            policies: vec![
                Policy::Obfuscate(ObfuscatePolicy { fields: fields(&["address_1"]) }),
                Policy::Aggregation(AggregationPolicy {
                    entity: "person_id".to_string(),
                    minimum_bucket_size: 10,
                }),
            ],
            priority: 1,
            budget: None,
        },
    );
    ctx.insert(
        key("patient_data.care_site"),
        binding(Policy::Hash(HashPolicy {
            fields: fields(&["care_site_name"]),
            salt: "abc".to_string(),
        })),
    );
    ctx.insert(
        key("patient_data.person"),
        PolicyBinding {
            policies: vec![Policy::DifferentialPrivacy(DifferentialPrivacyPolicy {
                entity: "person_id".to_string(),
                epsilon: 5,
                bucket_size: 2,
            })],
            priority: 1,
            budget: Some(PolicyBudget { maximum: 100, used: 0 }),
        },
    );
    ctx
}

fn unannotated(root: Rel) -> RelT {
    RelT { root, board: Err(ValidateError::Internal("not annotated".to_string())) }
}

fn col(name: &str) -> ExprT {
    ExprT::lift(Expr::Column(ContextKey::with_name(name)))
}

fn select(columns: &[&str], from: &str) -> RelT {
    unannotated(Rel::Projection {
        attributes: columns.iter().map(|c| col(c)).collect(),
        from: Box::new(unannotated(Rel::Table(key(from)))),
    })
}

fn count(arg: ExprT, distinct: bool) -> ExprT {
    ExprT::lift(Expr::Function { name: FunctionName::Count, args: vec![arg], distinct })
}

fn grouped(group: &str, counted: ExprT, from: &str) -> RelT {
    unannotated(Rel::Aggregation {
        attributes: vec![col(group), counted],
        group_by: vec![col(group)],
        from: Box::new(unannotated(Rel::Table(key(from)))),
    })
}

fn wheel() -> ContextKey {
    key("resource.group.wheel")
}

fn test_transform_for(query: RelT) -> Transformed<RelT> {
    let ctx = schema();
    let policies = policies_for_wheel();
    let rel_t = rebase(&ctx, &query);
    assert!(rel_t.board.is_ok());
    let audience = wheel();
    let transformer = RelTransformer::new(&policies, &audience, &ctx);
    match transformer.transform_rel(&rel_t) {
        Ok(t) => t,
        Err(Error::NoMatch) => Transformed::default(rel_t),
        Err(Error::Validate(e)) => panic!("{}", e.reason()),
    }
}

fn has_audience(meta: &TableMeta, audience: &ContextKey) -> bool {
    meta.audience.iter().any(|a| a.equals(audience))
}

#[test]
fn transform_blocked() {
    let rel_t = test_transform_for(select(&["person_id"], "patient_data.person")).into_inner();
    let table_meta = rel_t.board.unwrap();
    assert!(table_meta.audience.is_empty())
}

#[test]
fn transform_whitelist() {
    let rel_t = test_transform_for(select(&["vocabulary_id"], "patient_data.vocabulary")).into_inner();
    let table_meta = rel_t.board.unwrap();
    assert!(has_audience(&table_meta, &wheel()));
    match &rel_t.root {
        Rel::Projection { attributes, .. } => match &attributes[0].root {
            Expr::Column(k) => assert_eq!(k.to_string(), "vocabulary_id"),
            _ => panic!("`vocabulary_id` was rewritten"),
        },
        _ => unreachable!(),
    }
}

#[test]
fn transform_obfuscation() {
    let rel_t = test_transform_for(select(&["address_1"], "patient_data.location")).into_inner();
    let table_meta = rel_t.board.unwrap();
    assert!(has_audience(&table_meta, &wheel()));
    match rel_t.root {
        Rel::Projection { attributes, .. } => match &attributes[0].root {
            Expr::As { expr, alias } => match &expr.root {
                Expr::Literal(LiteralValue::Null) => assert_eq!(alias, &"address_1".to_string()),
                _ => panic!("`review_id` was not obfuscated"),
            },
            _ => panic!("`review_id` was not obfuscated"),
        },
        _ => unreachable!(),
    }
}

#[test]
fn transform_hash() {
    let rel_t = test_transform_for(select(&["care_site_name"], "patient_data.care_site")).into_inner();
    let table_meta = rel_t.board.unwrap();
    assert!(has_audience(&table_meta, &wheel()));
    match rel_t.root {
        Rel::Projection { attributes, .. } => match &attributes[0].root {
            Expr::As { expr, alias } => match &expr.root {
                Expr::Hash { salt, .. } => {
                    assert_eq!(salt, "abc");
                    assert_eq!(alias, "care_site_name");
                }
                _ => panic!("`care_site_name` was not hashed"),
            },
            _ => panic!("`care_site_name` was not hashed"),
        },
        _ => unreachable!(),
    }
}

#[test]
fn transform_diff_priv() {
    let rel_t = test_transform_for(grouped(
        "gender_concept_id",
        count(col("person_id"), false),
        "patient_data.person",
    ));
    // the differential privacy policy is the only one with a cost
    assert!(rel_t.cost.entries.iter().next().unwrap().1 > 0);
    assert_eq!(rel_t.cost.entries[0].1, 5);
    match &rel_t.root.root {
        Rel::Projection { attributes, from } => {
            let names: Vec<String> = attributes
                .iter()
                .map(|a| match &a.root {
                    Expr::Column(k) => k.to_string(),
                    _ => panic!("projection of a non-column"),
                })
                .collect();
            assert_eq!(names, vec!["gender_concept_id".to_string(), "f1_".to_string()]);
            match &from.root {
                Rel::Selection { where_, .. } => match &where_.root {
                    Expr::BinaryOp { left, right, .. } => {
                        match &left.root {
                            Expr::Column(k) => assert_eq!(k.to_string(), "__bucket_count"),
                            _ => panic!("wrong filter"),
                        }
                        // bucket size 2 times the 3 rows an entity has at most
                        assert!(matches!(right.root, Expr::Literal(LiteralValue::Long(6))));
                    }
                    _ => panic!("wrong filter"),
                },
                _ => panic!("not filtered"),
            }
        }
        _ => panic!("not wrapped in a projection"),
    }
}

#[test]
fn transform_aggregation() {
    let rel_t = test_transform_for(grouped(
        "state",
        count(col("location_id"), true),
        "patient_data.location",
    ));
    let table_meta = rel_t.root.board.unwrap();
    assert!(has_audience(&table_meta, &wheel()));
    match &rel_t.root.root {
        Rel::Projection { from, .. } => match &from.root {
            Rel::Selection { where_, .. } => match &where_.root {
                Expr::BinaryOp { left, right, .. } => {
                    match &left.root {
                        Expr::Column(k) => assert_eq!(k.to_string(), "policy_person_id"),
                        _ => panic!("wrong filter"),
                    }
                    assert!(matches!(right.root, Expr::Literal(LiteralValue::Long(10))));
                }
                _ => panic!("wrong filter"),
            },
            _ => panic!("not filtered"),
        },
        _ => panic!("not wrapped in a projection"),
    }
}

#[test]
fn diff_priv_out_of_budget_is_no_match() {
    let ctx = schema();
    let mut policies = policies_for_wheel();
    policies.insert(
        key("patient_data.person"),
        PolicyBinding {
            policies: vec![Policy::DifferentialPrivacy(DifferentialPrivacyPolicy {
                entity: "person_id".to_string(),
                epsilon: 5,
                bucket_size: 2,
            })],
            priority: 1,
            budget: Some(PolicyBudget { maximum: 7, used: 3 }),
        },
    );
    let rel_t = rebase(
        &ctx,
        &grouped("gender_concept_id", count(col("person_id"), false), "patient_data.person"),
    );
    let audience = wheel();
    let transformer = RelTransformer::new(&policies, &audience, &ctx);
    assert!(matches!(transformer.transform_rel(&rel_t), Err(Error::NoMatch)));
}

#[test]
fn diff_priv_cost_is_epsilon_per_aggregate() {
    let ctx = schema();
    let query = unannotated(Rel::Aggregation {
        attributes: vec![
            col("gender_concept_id"),
            count(col("person_id"), false),
            ExprT::lift(Expr::Function {
                name: FunctionName::Sum,
                args: vec![col("person_id")],
                distinct: false,
            }),
        ],
        group_by: vec![col("gender_concept_id")],
        from: Box::new(unannotated(Rel::Table(key("patient_data.person")))),
    });
    let rel_t = rebase(&ctx, &query);
    let policy = DifferentialPrivacyPolicy { entity: "person_id".to_string(), epsilon: 7, bucket_size: 2 };
    let costly = policy.transform_rel(&rel_t, &ctx).ok().unwrap();
    assert_eq!(costly.cost, 14);
}

#[test]
fn transform_of_a_bare_table_is_no_match() {
    let ctx = schema();
    let policies = policies_for_wheel();
    let rel_t = rebase(&ctx, &unannotated(Rel::Table(key("patient_data.location"))));
    let audience = wheel();
    let transformer = RelTransformer::new(&policies, &audience, &ctx);
    assert!(matches!(transformer.transform_rel(&rel_t), Err(Error::NoMatch)));
}

#[test]
fn rebase_twice_is_rebase_once() {
    let ctx = schema();
    let once = rebase(&ctx, &select(&["address_1", "state"], "patient_data.location"));
    let twice = rebase(&ctx, &once);
    let a = once.board.unwrap();
    let b = twice.board.unwrap();
    assert_eq!(a.columns.len(), b.columns.len());
    for i in 0..a.columns.len() {
        assert!(a.columns.key_at(i).equals(b.columns.key_at(i)));
        assert_eq!(a.columns.value_at(i).ty, b.columns.value_at(i).ty);
    }
}

#[test]
fn priority_rises_from_a_rewritten_child() {
    let ctx = schema();
    let mut policies = Context::new();
    policies.insert(
        key("patient_data.vocabulary"),
        PolicyBinding {
            policies: vec![Policy::Whitelist(WhitelistPolicy { fields: fields(&["vocabulary_id"]) })],
            priority: 3,
            budget: None,
        },
    );
    let aliased = unannotated(Rel::Projection {
        attributes: vec![ExprT::lift(Expr::As {
            expr: Box::new(col("vocabulary_id")),
            alias: "v".to_string(),
        })],
        from: Box::new(unannotated(Rel::Table(key("patient_data.vocabulary")))),
    });
    let rel_t = rebase(&ctx, &aliased);
    let audience = wheel();
    let transformer = RelTransformer::new(&policies, &audience, &ctx);
    let t = transformer.transform_rel(&rel_t).ok().unwrap();
    assert_eq!(t.priority, 3);
    assert!(has_audience(t.root.board.as_ref().unwrap(), &wheel()));
    assert_eq!(t.cost.len(), 1);
    assert_eq!(t.cost.entries[0].1, 0);
}

#[test]
fn validation_is_repeatable() {
    let ctx = schema();
    let bad = unannotated(Rel::Projection {
        attributes: vec![ExprT::lift(Expr::Function {
            name: FunctionName::Sum,
            args: vec![col("address_1")],
            distinct: false,
        })],
        from: Box::new(unannotated(Rel::Table(key("patient_data.location")))),
    });
    let first = rebase(&ctx, &bad).board.err().unwrap().reason();
    let second = rebase(&ctx, &bad).board.err().unwrap().reason();
    assert_eq!(first, second);
    assert_eq!(first, "expected numeric type, found String");
}

#[test]
fn rewrite_below_a_selection_carries_cost_and_priority() {
    let ctx = schema();
    let mut policies = Context::new();
    policies.insert(
        key("patient_data.vocabulary"),
        PolicyBinding {
            policies: vec![Policy::Whitelist(WhitelistPolicy { fields: fields(&["vocabulary_id"]) })],
            priority: 4,
            budget: None,
        },
    );
    let filtered = unannotated(Rel::Selection {
        from: Box::new(select(&["vocabulary_id"], "patient_data.vocabulary")),
        where_: Box::new(ExprT::lift(Expr::IsNotNull(Box::new(col("f0_"))))),
    });
    let rel_t = rebase(&ctx, &filtered);
    assert!(rel_t.board.is_ok());
    let audience = wheel();
    let transformer = RelTransformer::new(&policies, &audience, &ctx);
    let t = transformer.transform_rel(&rel_t).ok().unwrap();
    assert_eq!(t.priority, 4);
    assert_eq!(t.cost.len(), 1);
    assert!(t.cost.key_at(0).equals(&key("patient_data.vocabulary")));
    assert!(matches!(t.root.root, Rel::Selection { .. }));
    assert!(has_audience(t.root.board.as_ref().unwrap(), &wheel()));
}
